//! What a reader finds of the metadata in the written file.

use vstd::prelude::*;
use vstd::utf8::*;

use crate::bytes;
use crate::mp4::boxes;
use crate::mp4::contents::{self, is_hdlr};
use crate::mp4::movie::{self, full, inside, kid, kinds};
use crate::mp4::reader::{self, children, f, holds, word};
use crate::mp4::{self, Meta};

verus! {

/// A piece of metadata: its name, the type of its value and the value.
pub struct Tag {
    pub name: nat,
    pub dtype: nat,
    pub value: Seq<u8>,
}

/// The tag of a text, where there is one.
pub open spec fn text_tag(name: nat, text: Option<String>) -> Seq<Tag> {
    match text {
        Some(t) => seq![Tag { name, dtype: 1, value: encode_utf8(t@) }],
        None => Seq::empty(),
    }
}

/// The tag of the cover, where there is one.
pub open spec fn cover_tag(cover: Option<(Vec<u8>, u8)>) -> Seq<Tag> {
    match cover {
        Some(c) => seq![
            Tag { name: word('c', 'o', 'v', 'r'), dtype: c.1 as nat, value: c.0@ },
        ],
        None => Seq::empty(),
    }
}

/// The tags of what is present, in order.
pub open spec fn tags(m: Meta) -> Seq<Tag> {
    text_tag(word('\u{a9}', 'n', 'a', 'm'), m.title) + text_tag(
        word('\u{a9}', 'A', 'R', 'T'),
        m.artist,
    ) + text_tag(word('\u{a9}', 'a', 'l', 'b'), m.album) + text_tag(
        word('\u{a9}', 'd', 'a', 'y'),
        m.date,
    ) + cover_tag(m.cover)
}

/// Whether `s` holds a value of the given type.
pub open spec fn is_item(s: Seq<u8>, dtype: nat, value: Seq<u8>) -> bool {
    &&& kinds(s, seq![word('d', 'a', 't', 'a')])
    &&& kid(s, 0).len() == 8 + value.len()
    &&& holds(kid(s, 0).take(8), f(4, dtype) + f(4, 0))
    &&& kid(s, 0).skip(8) == value
}

/// Whether `s` is a box for each tag, in order.
pub open spec fn is_ilst(s: Seq<u8>, wanted: Seq<Tag>) -> bool {
    &&& children(s) is Some
    &&& children(s)->Some_0.len() == wanted.len()
    &&& forall|i: int|
        0 <= i < wanted.len() ==> {
            &&& (#[trigger] children(s)->Some_0[i]).0 == wanted[i].name
            &&& is_item(children(s)->Some_0[i].1, wanted[i].dtype, wanted[i].value)
        }
}

/// Whether `s` is the user data with these tags.
pub open spec fn is_udta(s: Seq<u8>, wanted: Seq<Tag>) -> bool {
    &&& kinds(s, seq![word('m', 'e', 't', 'a')])
    &&& holds(kid(s, 0).take(4), full(0, 0))
    &&& kinds(kid(s, 0).skip(4), seq![word('h', 'd', 'l', 'r'), word('i', 'l', 's', 't')])
    &&& is_hdlr(
        kid(kid(s, 0).skip(4), 0),
        word('m', 'd', 'i', 'r'),
        encode_utf8("appl"@),
    )
    &&& is_ilst(kid(kid(s, 0).skip(4), 1), wanted)
}

proof fn lemma_append(a: Seq<u8>, wa: Seq<Tag>, b: Seq<u8>, wb: Seq<Tag>)
    requires
        is_ilst(a, wa),
        is_ilst(b, wb),
    ensures
        is_ilst(a + b, wa + wb),
{
    reader::lemma_children_append(a, b);
    let list = children(a + b)->Some_0;
    let w = wa + wb;
    assert forall|i: int| 0 <= i < w.len() implies {
        &&& (#[trigger] list[i]).0 == w[i].name
        &&& is_item(list[i].1, w[i].dtype, w[i].value)
    } by {
        if i < wa.len() {
            assert(list[i] == children(a)->Some_0[i]);
        } else {
            assert(list[i] == children(b)->Some_0[i - wa.len()]);
        }
    }
}

proof fn lemma_item(fourcc: Seq<u8>, dtype: u8, value: Seq<u8>)
    requires
        fourcc.len() == 4,
        mp4::item_bytes(fourcc, dtype, value).len() <= u32::MAX,
    ensures
        is_ilst(
            mp4::item_bytes(fourcc, dtype, value),
            seq![Tag { name: reader::number(fourcc), dtype: dtype as nat, value }],
        ),
        mp4::item_bytes(fourcc, dtype, value).len() == value.len() + 24,
{
    broadcast use {bytes::lemma_be_bytes_len, reader::group_holds};

    bytes::lemma_pow256();
    let head = boxes::u32be(dtype as nat) + boxes::nulls(4);
    let d = head + value;
    let data = boxes::box_bytes(boxes::four('d', 'a', 't', 'a'), d);
    reader::lemma_children_box(boxes::four('d', 'a', 't', 'a'), d);
    reader::lemma_number_four('d', 'a', 't', 'a');
    reader::lemma_children_box(fourcc, data);
    assert(d.take(8) =~= head);
    assert(d.skip(8) =~= value);
}

proof fn lemma_none()
    ensures
        is_ilst(Seq::empty(), Seq::empty()),
{
}

proof fn lemma_text(a: char, b: char, c: char, d: char, text: Option<String>)
    requires
        a <= '\u{ff}',
        b <= '\u{ff}',
        c <= '\u{ff}',
        d <= '\u{ff}',
        mp4::text_bytes(boxes::four(a, b, c, d), text).len() <= u32::MAX,
    ensures
        is_ilst(
            mp4::text_bytes(boxes::four(a, b, c, d), text),
            text_tag(word(a, b, c, d), text),
        ),
        mp4::text_bytes(boxes::four(a, b, c, d), text).len() == 0 <==> text is None,
{
    reader::lemma_number_four(a, b, c, d);
    match text {
        Some(t) => lemma_item(boxes::four(a, b, c, d), 1, encode_utf8(t@)),
        None => lemma_none(),
    }
}

proof fn lemma_items(m: Meta)
    requires
        mp4::items_bytes(m).len() <= u32::MAX,
    ensures
        is_ilst(mp4::items_bytes(m), tags(m)),
        mp4::items_bytes(m).len() == 0 <==> tags(m).len() == 0,
{
    let s1 = mp4::text_bytes(boxes::four('\u{a9}', 'n', 'a', 'm'), m.title);
    let s2 = mp4::text_bytes(boxes::four('\u{a9}', 'A', 'R', 'T'), m.artist);
    let s3 = mp4::text_bytes(boxes::four('\u{a9}', 'a', 'l', 'b'), m.album);
    let s4 = mp4::text_bytes(boxes::four('\u{a9}', 'd', 'a', 'y'), m.date);
    let s5 = mp4::cover_bytes(m.cover);
    assert(mp4::items_bytes(m) == s1 + s2 + s3 + s4 + s5);
    lemma_text('\u{a9}', 'n', 'a', 'm', m.title);
    lemma_text('\u{a9}', 'A', 'R', 'T', m.artist);
    lemma_text('\u{a9}', 'a', 'l', 'b', m.album);
    lemma_text('\u{a9}', 'd', 'a', 'y', m.date);
    match m.cover {
        Some(c) => {
            reader::lemma_number_four('c', 'o', 'v', 'r');
            lemma_item(boxes::four('c', 'o', 'v', 'r'), c.1, c.0@);
        },
        None => lemma_none(),
    }
    let t1 = text_tag(word('\u{a9}', 'n', 'a', 'm'), m.title);
    let t2 = text_tag(word('\u{a9}', 'A', 'R', 'T'), m.artist);
    let t3 = text_tag(word('\u{a9}', 'a', 'l', 'b'), m.album);
    let t4 = text_tag(word('\u{a9}', 'd', 'a', 'y'), m.date);
    lemma_append(s1, t1, s2, t2);
    lemma_append(s1 + s2, t1 + t2, s3, t3);
    lemma_append(s1 + s2 + s3, t1 + t2 + t3, s4, t4);
    lemma_append(s1 + s2 + s3 + s4, t1 + t2 + t3 + t4, s5, cover_tag(m.cover));
}

/// The tags that the file has.
pub open spec fn wanted(meta: Option<&Meta>) -> Seq<Tag> {
    match meta {
        Some(m) => tags(*m),
        None => Seq::empty(),
    }
}

/// The user data around the items.
pub open spec fn around(items: Seq<u8>) -> Seq<u8> {
    boxes::full_box_bytes(
        boxes::four('m', 'e', 't', 'a'),
        0,
        0,
        boxes::hdlr_bytes(boxes::four('m', 'd', 'i', 'r'), "appl"@) + boxes::box_bytes(
            boxes::four('i', 'l', 's', 't'),
            items,
        ),
    )
}

proof fn lemma_around(items: Seq<u8>, wanted: Seq<Tag>)
    requires
        is_ilst(items, wanted),
        around(items).len() <= u32::MAX,
    ensures
        is_udta(around(items), wanted),
{
    let hdlr = boxes::hdlr_bytes(boxes::four('m', 'd', 'i', 'r'), "appl"@);
    let ilst = boxes::box_bytes(boxes::four('i', 'l', 's', 't'), items);
    let q = hdlr + ilst;
    assert(around(items).len() == q.len() + 12 && hdlr.len() == encode_utf8("appl"@).len() + 33
        && ilst.len() == items.len() + 8) by {
        broadcast use bytes::lemma_be_bytes_len;

    }
    let h = contents::lemma_hdlr('m', 'd', 'i', 'r', "appl"@);
    reader::lemma_children_box(boxes::four('i', 'l', 's', 't'), items);
    reader::lemma_number_four('i', 'l', 's', 't');
    reader::lemma_number_four('m', 'e', 't', 'a');
    reader::lemma_children_append(hdlr, ilst);
    movie::lemma_full(boxes::four('m', 'e', 't', 'a'), 0, 0, q);
    let s = inside(0, 0, q);
    bytes::lemma_be_bytes_len(3, 0);
    assert(s.take(4) =~= seq![0u8] + bytes::be_bytes(3, 0));
    assert(s.skip(4) =~= q);
}

pub proof fn lemma_udta(meta: Option<&Meta>)
    requires
        mp4::udta_bytes(meta).len() <= u32::MAX,
    ensures
        wanted(meta).len() == 0 ==> mp4::udta_bytes(meta).len() == 0,
        wanted(meta).len() > 0 ==> ({
            let p = around(mp4::items_bytes(*meta->Some_0));
            &&& children(mp4::udta_bytes(meta)) == Some(seq![(word('u', 'd', 't', 'a'), p)])
            &&& is_udta(p, wanted(meta))
        }),
{
    reveal(mp4::udta_bytes);
    if let Some(m) = meta {
        let items = mp4::items_bytes(*m);
        assert(around(items).len() >= items.len() && mp4::udta_bytes(meta).len() == if items.len()
            == 0 {
            0
        } else {
            around(items).len() + 8
        }) by {
            broadcast use bytes::lemma_be_bytes_len;

        }
        lemma_items(*m);
        if tags(*m).len() > 0 {
            lemma_around(items, tags(*m));
            reader::lemma_children_box(boxes::four('u', 'd', 't', 'a'), around(items));
            reader::lemma_number_four('u', 'd', 't', 'a');
        }
    }
}

} // verus!
