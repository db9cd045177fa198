//! The picture size of a stream that carries none of its own.
//!
//! It comes from the first decodable coded frame, an intra-coded one where
//! there is one. show_existing frames carry no picture, frames before any
//! sequence header cannot be parsed, and temporal units without a frame yield
//! nothing: they are passed over.

use vstd::prelude::*;

use crate::container::stream;
use crate::error::Error;
use crate::frame_header::{
    self, parse_frame_header_info, FrameHeaderInfo, INTRA_ONLY_FRAME, KEY_FRAME,
};
use crate::model;
use crate::obu::{self, parse_obus, Obu, ObuType};
use crate::seq_header::{self, parse_sequence_header, OperatingPoint, Sections, SequenceHeader};
use crate::uheader::{self, scan_uncompressed_header, Dpb, HeaderScan, RefSlot};

verus! {

/// Why a coded frame could not be decoded.
#[derive(Debug, Clone, Copy, PartialEq, Eq, Structural)]
pub enum Complaint {
    BadHeader { tu: usize, cause: Error },
    Unreadable { tu: usize, cause: Error },
}

/// What has been seen of a stream.
pub struct Sight<H = Option<SequenceHeader>, D = Dpb> {
    /// The governing sequence header.
    pub header: H,
    pub dpb: D,
    /// The frame that gives the size so far.
    pub found: Option<HeaderScan>,
    /// The last frame that could not be decoded.
    pub complaint: Option<Complaint>,
    /// An intra-coded frame was found: nothing more is looked at.
    pub done: bool,
}

pub type Seen = Sight<Option<Sections<Seq<OperatingPoint>>>, Seq<RefSlot>>;

impl View for Sight {
    type V = Seen;

    open spec fn view(&self) -> Seen {
        Sight {
            header: match self.header {
                Some(sh) => Some(sh@),
                None => None,
            },
            dpb: self.dpb@,
            found: self.found,
            complaint: self.complaint,
            done: self.done,
        }
    }
}

pub open spec fn unseen() -> Seen {
    Sight {
        header: None,
        dpb: uheader::blank_slots(),
        found: None,
        complaint: None,
        done: false,
    }
}

pub open spec fn intra_coded(info: FrameHeaderInfo) -> bool {
    info.frame_type == Some(KEY_FRAME) || info.frame_type == Some(INTRA_ONLY_FRAME)
}

impl Seen {
    /// After a coded frame of temporal unit `tu`.
    pub open spec fn frame_seen(self, payload: Seq<u8>, tu: usize) -> Seen {
        match self.header {
            None => self,
            Some(sh) => match frame_header::info_of(payload, sh) {
                Err(cause) => Sight {
                    complaint: Some(Complaint::Unreadable { tu, cause }),
                    ..self
                },
                Ok(info) => if info.show_existing_frame {
                    self
                } else {
                    match uheader::scan_of(payload, sh, self.dpb) {
                        Err(cause) => Sight {
                            dpb: if uheader::scan_resets(payload, sh) {
                                uheader::blank_slots()
                            } else {
                                self.dpb
                            },
                            complaint: Some(Complaint::BadHeader { tu, cause }),
                            ..self
                        },
                        Ok(s) => Sight {
                            dpb: uheader::slots_after(self.dpb, s),
                            found: if intra_coded(info) || self.found is None {
                                Some(s)
                            } else {
                                self.found
                            },
                            done: intra_coded(info),
                            ..self
                        },
                    }
                },
            },
        }
    }

    /// After the OBUs of temporal unit `tu`, up to its first coded frame.
    pub open spec fn unit_seen(self, obus: stream::Unit, tu: usize) -> Seen
        decreases obus.len(),
    {
        if obus.len() == 0 {
            self
        } else if stream::is_frame(obus[0]) {
            self.frame_seen(obus[0].payload, tu)
        } else if obus[0].obu_type == ObuType::SequenceHeader {
            match seq_header::header_of(obus[0].payload) {
                Ok(sh) => (Sight { header: Some(sh), ..self }).unit_seen(obus.skip(1), tu),
                Err(_) => self.unit_seen(obus.skip(1), tu),
            }
        } else {
            self.unit_seen(obus.skip(1), tu)
        }
    }
}

/// What is seen of these temporal units.
pub open spec fn seen_of(tus: Seq<Seq<u8>>) -> Seen
    decreases tus.len(),
{
    if tus.len() == 0 {
        unseen()
    } else {
        let s = seen_of(tus.drop_last());
        if s.done {
            s
        } else {
            match obu::obus_of(tus.last()) {
                Ok(obus) => s.unit_seen(obus, (tus.len() - 1) as usize),
                Err(_) => s,
            }
        }
    }
}

pub proof fn lemma_done_stays(tus: Seq<Seq<u8>>, i: int)
    requires
        0 <= i <= tus.len(),
        seen_of(tus.take(i)).done,
    ensures
        seen_of(tus) == seen_of(tus.take(i)),
    decreases tus.len(),
{
    if i == tus.len() {
        assert(tus.take(i) =~= tus);
    } else {
        assert(tus.drop_last().take(i) =~= tus.take(i));
        lemma_done_stays(tus.drop_last(), i);
    }
}

impl Sight {
    pub open spec fn wf(self) -> bool {
        &&& uheader::slots_wf(self.dpb@)
        &&& self.header matches Some(sh) ==> uheader::walkable(sh@)
    }

    fn see_frame(&mut self, payload: &Vec<u8>, tu: usize)
        requires
            old(self).wf(),
        ensures
            final(self).wf(),
            final(self)@ == old(self)@.frame_seen(payload@, tu),
    {
        match &self.header {
            None => {},
            Some(sh) => match parse_frame_header_info(payload, sh) {
                Err(cause) => {
                    self.complaint = Some(Complaint::Unreadable { tu, cause });
                },
                Ok(info) => {
                    if !info.show_existing_frame {
                        match scan_uncompressed_header(payload, sh, &mut self.dpb) {
                            Ok(s) => {
                                // Prefer an intra-coded frame: it carries its
                                // own size. An inter frame scanned against
                                // empty slots can read a size of zero.
                                let intra = match info.frame_type {
                                    Some(t) => t == KEY_FRAME || t == INTRA_ONLY_FRAME,
                                    None => false,
                                };
                                if intra || self.found.is_none() {
                                    self.found = Some(s);
                                }
                                self.done = intra;
                            },
                            Err(cause) => {
                                self.complaint = Some(Complaint::BadHeader { tu, cause });
                            },
                        }
                    }
                },
            },
        }
    }

    fn see_unit(&mut self, obus: &Vec<Obu>, tu: usize)
        requires
            old(self).wf(),
        ensures
            final(self).wf(),
            final(self)@ == old(self)@.unit_seen(model::views(obus@), tu),
    {
        let ghost all = model::views(obus@);
        let ghost owed = self@.unit_seen(all, tu);
        let mut j: usize = 0;
        assert(all.skip(0) =~= all);
        while j < obus.len()
            invariant
                j <= obus@.len(),
                self.wf(),
                all == model::views(obus@),
                owed == old(self)@.unit_seen(all, tu),
                owed == self@.unit_seen(all.skip(j as int), tu),
            decreases obus@.len() - j,
        {
            let o = &obus[j];
            proof {
                assert(all.skip(j as int)[0] == o@);
                assert(all.skip(j as int).skip(1) =~= all.skip(j + 1));
            }
            match o.obu_type {
                ObuType::SequenceHeader => {
                    if let Ok(sh) = parse_sequence_header(&o.payload) {
                        proof {
                            seq_header::parsed_header_re_emits(o.payload@);
                        }
                        self.header = Some(sh);
                    }
                },
                ObuType::Frame | ObuType::FrameHeader => {
                    self.see_frame(&o.payload, tu);
                    return ;
                },
                _ => {},
            }
            j = j + 1;
        }
        assert(all.skip(j as int).len() == 0);
    }
}

/// Look for the frame that gives the picture size.
pub(crate) fn look(frames: &Vec<(u64, Vec<u8>)>) -> (r: Sight)
    ensures
        r@ == seen_of(Seq::new(frames@.len(), |i: int| frames@[i].1@)),
{
    let ghost all = Seq::new(frames@.len(), |i: int| frames@[i].1@);
    let mut sight = Sight {
        header: None,
        dpb: Dpb::default(),
        found: None,
        complaint: None,
        done: false,
    };
    let mut i: usize = 0;
    assert(all.take(0) =~= Seq::empty());
    while i < frames.len() && !sight.done
        invariant
            i <= frames@.len(),
            all == Seq::new(frames@.len(), |i: int| frames@[i].1@),
            sight.wf(),
            sight@ == seen_of(all.take(i as int)),
        decreases frames@.len() - i,
    {
        assert(all.take(i + 1).drop_last() =~= all.take(i as int));
        assert(all[i as int] == frames@[i as int].1@);
        if let Ok(obus) = parse_obus(&frames[i].1) {
            sight.see_unit(&obus, i);
        }
        i = i + 1;
    }
    proof {
        if sight.done {
            lemma_done_stays(all, i as int);
        } else {
            assert(all.take(i as int) =~= all);
        }
    }
    sight
}

} // verus!
