//! Whole streams: inputs, pair selection, assembling, expanding, inspecting.

use stillcast::api::{expand_ivf, expand_ivf_multi, ExpandError, ExpandParams, SegmentInput};
use stillcast::assemble::{
    assemble, assemble_multi, show_existing_tu, split_input, to_ivf, AssembleError, AssembleParams,
    Segment, TemporalUnit, INPUT_SCAN_TUS, MAX_TOTAL_FRAMES,
};
use stillcast::bitio::BitWriter;
use stillcast::container::{
    read, split_obu_stream, write_annexb, write_obu_stream, ContainerError, Format,
};
use stillcast::error::Error;
use stillcast::frame_header::{self, KEY_FRAME};
use stillcast::inspect::{analyze, checks, describe_kind, InspectError, TuKind};
use stillcast::ivf::{self, IvfFile};
use stillcast::obu::{parse_obus, Obu, ObuType};
use stillcast::seq_header::{
    self, OperatingPoint, SequenceHeader, SELECT_INTEGER_MV, SELECT_SCREEN_CONTENT_TOOLS,
};
use stillcast::uheader::{scan_uncompressed_header, Dpb};

// ---------- a short encode of a 640x640 still at 30 fps ----------

fn encoder_header() -> SequenceHeader {
    SequenceHeader {
        operating_points: vec![OperatingPoint {
            idc: 0,
            seq_level_idx: 4,
            ..Default::default()
        }],
        frame_width_bits_minus_1: 9,
        frame_height_bits_minus_1: 9,
        max_frame_width: 640,
        max_frame_height: 640,
        use_128x128_superblock: true,
        enable_filter_intra: true,
        enable_intra_edge_filter: true,
        enable_interintra_compound: true,
        enable_masked_compound: true,
        enable_warped_motion: true,
        enable_dual_filter: true,
        enable_order_hint: true,
        seq_choose_screen_content_tools: true,
        seq_force_screen_content_tools: SELECT_SCREEN_CONTENT_TOOLS,
        seq_choose_integer_mv: true,
        seq_force_integer_mv: SELECT_INTEGER_MV,
        order_hint_bits: 7,
        enable_cdef: true,
        enable_restoration: true,
        color_primaries: 2,
        transfer_characteristics: 2,
        matrix_coefficients: 2,
        color_range: Some(false),
        subsample_x: true,
        subsample_y: true,
        ..Default::default()
    }
}

/// The header fields from the tiles to the end, for a frame that is coded
/// with one tile and all filters off.
fn write_coding(w: &mut BitWriter, inter: bool) {
    w.f(1, 0); // disable_frame_end_update_cdf
    w.f(1, 1); // uniform_tile_spacing_flag
    w.f(1, 0); // increment_tile_cols_log2
    w.f(1, 0); // increment_tile_rows_log2
    w.f(8, 100); // base_q_idx
    w.f(1, 0); // delta_q_y_dc
    w.f(1, 0); // delta_q_u_dc
    w.f(1, 0); // delta_q_u_ac
    w.f(1, 0); // using_qmatrix
    w.f(1, 0); // segmentation_enabled
    w.f(1, 0); // delta_q_present
    w.f(6, 0); // loop_filter_level[0]
    w.f(6, 0); // loop_filter_level[1]
    w.f(3, 0); // loop_filter_sharpness
    w.f(1, 0); // loop_filter_delta_enabled
    w.f(2, 0); // cdef_damping_minus_3
    w.f(2, 0); // cdef_bits
    w.f(6, 0); // cdef_y strengths
    w.f(6, 0); // cdef_uv strengths
    w.f(2, 0); // lr_type
    w.f(2, 0);
    w.f(2, 0);
    w.f(1, 0); // tx_mode_select
    if inter {
        w.f(1, 0); // reference_select
        w.f(1, 0); // allow_warped_motion
    }
    w.f(1, 0); // reduced_tx_set
    if inter {
        w.f(7, 0); // is_global, one for each reference
    }
}

fn with_tiles(w: BitWriter, tile_bytes: usize) -> Vec<u8> {
    let mut w = w;
    w.byte_alignment();
    let mut payload = w.into_bytes();
    for i in 0..tile_bytes {
        payload.push((i * 37 + 11) as u8);
    }
    payload
}

fn key_payload(tile_bytes: usize) -> Vec<u8> {
    let mut w = BitWriter::new();
    w.f(1, 0); // show_existing_frame
    w.f(2, 0); // KEY_FRAME
    w.f(1, 1); // show_frame
    w.f(1, 0); // disable_cdf_update
    w.f(1, 0); // allow_screen_content_tools
    w.f(1, 0); // frame_size_override_flag
    w.f(7, 0); // order_hint
    w.f(1, 0); // render_and_frame_size_different
    write_coding(&mut w, false);
    with_tiles(w, tile_bytes)
}

fn inter_payload(order_hint: u64, refresh: u8, tile_bytes: usize) -> Vec<u8> {
    let mut w = BitWriter::new();
    w.f(1, 0); // show_existing_frame
    w.f(2, 1); // INTER_FRAME
    w.f(1, 1); // show_frame
    w.f(1, 0); // error_resilient_mode
    w.f(1, 0); // disable_cdf_update
    w.f(1, 0); // allow_screen_content_tools
    w.f(1, 0); // frame_size_override_flag
    w.f(7, order_hint);
    w.f(3, 7); // primary_ref_frame
    w.f(8, u64::from(refresh));
    w.f(1, 0); // frame_refs_short_signaling
    for i in 0..7 {
        w.f(3, i); // ref_frame_idx
    }
    w.f(1, 0); // render_and_frame_size_different
    w.f(1, 0); // allow_high_precision_mv
    w.f(1, 1); // is_filter_switchable
    w.f(1, 0); // is_motion_mode_switchable
    write_coding(&mut w, true);
    with_tiles(w, tile_bytes)
}

fn obu(obu_type: ObuType, payload: Vec<u8>) -> Obu {
    Obu { obu_type, extension: None, payload }
}

/// TU0 = TD+seq+KF(oh=0), TUs 1..3 = shown INTER (oh=1,2,3).
fn src_tus() -> Vec<Vec<u8>> {
    let mut tus = vec![wrap_tu(vec![
        obu(
            ObuType::SequenceHeader,
            seq_header::emit_sequence_header(&encoder_header()),
        ),
        obu(ObuType::Frame, key_payload(1500)),
    ])];
    for i in 1..4u64 {
        tus.push(wrap_tu(vec![obu(
            ObuType::Frame,
            inter_payload(i, 1 << i, 20 + i as usize),
        )]));
    }
    tus
}

fn src_ivf() -> Vec<u8> {
    ivf_bytes(&src_tus())
}

fn ivf_of(tus: Vec<Vec<u8>>) -> IvfFile {
    IvfFile {
        width: 640,
        height: 640,
        timebase_den: 30,
        timebase_num: 1,
        frames: tus
            .into_iter()
            .enumerate()
            .map(|(i, t)| (i as u64, t))
            .collect(),
    }
}

fn ivf_bytes(tus: &[Vec<u8>]) -> Vec<u8> {
    ivf::write(&ivf_of(tus.to_vec()))
}

fn src_sh() -> SequenceHeader {
    let payload = parse_obus(&src_tus()[0])
        .unwrap()
        .into_iter()
        .find(|o| o.obu_type == ObuType::SequenceHeader)
        .unwrap()
        .payload;
    seq_header::parse_sequence_header(&payload).unwrap()
}

fn wrap_tu(obus: Vec<Obu>) -> TemporalUnit {
    let mut tu = Vec::new();
    Obu::temporal_delimiter().write(&mut tu);
    for obu in &obus {
        obu.write(&mut tu);
    }
    tu
}

/// The sequence header alone in its own TU (as section-5 streams emit).
fn seq_only_tu() -> TemporalUnit {
    wrap_tu(vec![obu(
        ObuType::SequenceHeader,
        seq_header::emit_sequence_header(&src_sh()),
    )])
}

/// A metadata + padding TU carrying no coded frame.
fn meta_padding_tu() -> TemporalUnit {
    wrap_tu(vec![
        obu(ObuType::Metadata, vec![0, 0, 0xaa, 0xbb]),
        obu(ObuType::Padding, vec![0; 3]),
    ])
}

/// The keyframe TU with the sequence header stripped out.
fn kf_only_tu() -> TemporalUnit {
    let mut tu = Vec::new();
    for obu in parse_obus(&src_tus()[0]).unwrap() {
        if obu.obu_type != ObuType::SequenceHeader {
            obu.write(&mut tu);
        }
    }
    tu
}

/// A minimal coded-frame TU whose header `parse_frame_header_info` can
/// walk (header only — no tile data; split_input never reads those).
#[allow(clippy::too_many_arguments)]
fn coded_frame_tu(
    sh: &SequenceHeader,
    frame_type: u8,
    show: bool,
    showable: bool,
    error_resilient: bool,
    order_hint: u64,
    refresh: u8,
) -> TemporalUnit {
    let intra = frame_type == KEY_FRAME || frame_type == frame_header::INTRA_ONLY_FRAME;
    let implicit = frame_type == frame_header::SWITCH_FRAME || (frame_type == KEY_FRAME && show);
    let mut w = BitWriter::new();
    w.f(1, 0); // show_existing_frame
    w.f(2, u64::from(frame_type));
    w.f(1, u64::from(show));
    if !show {
        w.f(1, u64::from(showable));
    }
    if !implicit {
        w.f(1, u64::from(error_resilient));
    }
    w.f(1, 0); // disable_cdf_update
    if sh.seq_force_screen_content_tools == 2 {
        w.f(1, 0); // allow_screen_content_tools = false
    }
    if frame_type != frame_header::SWITCH_FRAME {
        w.f(1, 0); // frame_size_override_flag
    }
    w.f(sh.order_hint_bits, order_hint);
    if !intra && !error_resilient {
        w.f(3, 7); // primary_ref_frame
    }
    // fixture seq header: no decoder model
    if !implicit {
        w.f(8, u64::from(refresh));
    }
    w.trailing_bits();
    wrap_tu(vec![obu(ObuType::Frame, w.into_bytes())])
}

/// A temporal unit with no coded frame (TD + metadata + padding).
fn junk_tu() -> Vec<u8> {
    wrap_tu(vec![
        obu(ObuType::Metadata, vec![0, 0, 0xaa]),
        obu(ObuType::Padding, vec![0; 4]),
    ])
}

fn expand_params(fps: Option<u32>, total_frames: u64, gop_size: u64) -> ExpandParams {
    ExpandParams {
        fps,
        total_frames,
        gop_size,
        decoder_model: false,
    }
}

fn assemble_params(total_frames: u64, gop_size: u64) -> AssembleParams {
    AssembleParams {
        fps: 30,
        fps_den: 1,
        total_frames,
        gop_size,
        decoder_model: false,
    }
}

// ---------- the fixture itself ----------

#[test]
fn fixture_headers_walk_to_their_ends() {
    let sh = src_sh();
    let mut dpb = Dpb::default();
    let key = key_payload(1500);
    let s = scan_uncompressed_header(&key, &sh, &mut dpb).unwrap();
    assert_eq!(s.frame_type, KEY_FRAME);
    assert_eq!((s.frame_width, s.frame_height), (640, 640));
    assert_eq!(s.refresh_frame_flags, 0xff);
    assert_eq!(s.end_pos.div_ceil(8) + 1500, key.len());
    assert!(dpb.slots.iter().all(|s| s.is_key_frame));

    let inter = inter_payload(1, 0x02, 20);
    let s = scan_uncompressed_header(&inter, &sh, &mut dpb).unwrap();
    assert_eq!((s.frame_type, s.order_hint, s.refresh_frame_flags), (1, 1, 2));
    assert!(s.show_frame && s.showable_frame);
    assert_eq!(s.upscaled_width, 640);
    assert_eq!(s.end_pos.div_ceil(8) + 20, inter.len());
    assert!(!dpb.slots[1].is_key_frame && dpb.slots[0].is_key_frame);
    assert_eq!(dpb.slots[1].order_hint, 1);
}

#[test]
fn keyframes_leave_the_same_slots_whatever_was_there() {
    let sh = src_sh();
    let key = key_payload(1500);
    let mut fresh = Dpb::default();
    let mut used = Dpb::default();
    scan_uncompressed_header(&key, &sh, &mut used).unwrap();
    scan_uncompressed_header(&inter_payload(1, 0x5a, 20), &sh, &mut used).unwrap();
    let a = scan_uncompressed_header(&key, &sh, &mut fresh).unwrap();
    let b = scan_uncompressed_header(&key, &sh, &mut used).unwrap();
    assert_eq!(a.end_pos, b.end_pos);
    assert_eq!(fresh.slots, used.slots);
}

#[test]
fn headers_walk_the_same_under_declared_timing() {
    let sh = src_sh();
    let timed = seq_header::with_timing_info(&sh, 25);
    let (mut before, mut after) = (Dpb::default(), Dpb::default());
    for payload in [key_payload(40), inter_payload(1, 0x02, 20)] {
        let a = scan_uncompressed_header(&payload, &sh, &mut before).unwrap();
        let b = scan_uncompressed_header(&payload, &timed, &mut after).unwrap();
        assert_eq!((a.end_pos, a.removal_insert_pos), (b.end_pos, b.removal_insert_pos));
        assert_eq!((a.frame_type, a.order_hint), (b.frame_type, b.order_hint));
        assert_eq!(before.slots, after.slots);
    }
}

// ---------- picking the pair ----------

#[test]
fn clean_input_keeps_first_two_packets() {
    // The scan picks packets 0 and 1 unchanged on a canonical encode.
    let ivf = ivf::read(&src_ivf()).unwrap();
    let (k, g) = split_input(&ivf).unwrap();
    assert_eq!(k, ivf.frames[0].1);
    assert_eq!(g, ivf.frames[1].1);
}

#[test]
fn skips_leading_frameless_tus() {
    let src = src_tus();
    let ivf = ivf_of(vec![
        wrap_tu(vec![]), // TD only
        seq_only_tu(),
        meta_padding_tu(),
        src[0].clone(),
        src[1].clone(),
    ]);
    let (k, g) = split_input(&ivf).unwrap();
    assert_eq!(k, src[0]);
    assert_eq!(g, src[1]);
}

#[test]
fn skips_extra_keyframe_before_golden() {
    let src = src_tus();
    let ivf = ivf_of(vec![src[0].clone(), kf_only_tu(), src[1].clone()]);
    let (k, g) = split_input(&ivf).unwrap();
    assert_eq!(k, src[0]);
    assert_eq!(g, src[1]);
}

#[test]
fn skips_show_existing_and_invisible_tus() {
    let src = src_tus();
    let sh = src_sh();
    let invisible = coded_frame_tu(&sh, frame_header::INTER_FRAME, false, true, true, 1, 0xff);
    let ivf = ivf_of(vec![
        src[0].clone(),
        show_existing_tu(0),
        invisible,
        src[1].clone(),
    ]);
    let (k, g) = split_input(&ivf).unwrap();
    assert_eq!(k, src[0]);
    assert_eq!(g, src[1]);
}

#[test]
fn reanchors_on_a_second_sequence_keyframe() {
    // [seq+KF(0), seq+KF(1), INTER(2)]: the golden was coded after the
    // second keyframe — only the (KF1, INTER) pair satisfies adjacency.
    let src = src_tus();
    let sh = src_sh();
    let kf1 = coded_frame_tu(&sh, KEY_FRAME, true, false, false, 1, 0);
    let mut kf1_tu = seq_only_tu();
    for obu in parse_obus(&kf1).unwrap() {
        if obu.obu_type != ObuType::TemporalDelimiter {
            obu.write(&mut kf1_tu);
        }
    }
    let golden2 = coded_frame_tu(&sh, frame_header::INTER_FRAME, true, true, true, 2, 0x02);
    let ivf = ivf_of(vec![src[0].clone(), kf1_tu.clone(), golden2]);
    let (k, g) = split_input(&ivf).unwrap();
    assert_eq!(k, kf1_tu);
    assert!(!g.is_empty());
}

#[test]
fn rejects_all_keyframe_input() {
    let src = src_tus();
    let ivf = ivf_of(vec![src[0].clone(), kf_only_tu(), kf_only_tu()]);
    let err = split_input(&ivf).unwrap_err().message();
    assert!(err.contains("TU1: KEY_FRAME"), "{err}");
    assert!(err.contains("forced keyframes"), "{err}");
}

#[test]
fn rejects_order_hint_gap() {
    // Golden-coded-against-other-frames: src[2] has order_hint 2, but
    // the anchor requires anchor+1 = 1.
    let src = src_tus();
    let ivf = ivf_of(vec![src[0].clone(), src[2].clone()]);
    let err = split_input(&ivf).unwrap_err().message();
    assert!(err.contains("order_hint=2 vs anchor+1=1"), "{err}");
}

#[test]
fn window_is_bounded() {
    // The golden one TU past the window is not seen.
    let src = src_tus();
    let mut tus = vec![src[0].clone()];
    for _ in 1..INPUT_SCAN_TUS {
        tus.push(show_existing_tu(0));
    }
    tus.push(src[1].clone());
    let err = split_input(&ivf_of(tus)).unwrap_err().message();
    assert!(err.contains("no coded frame follows"), "{err}");
}

#[test]
fn rejects_input_without_sequence_header_in_anchor_tu() {
    let src = src_tus();
    let ivf = ivf_of(vec![seq_only_tu(), kf_only_tu(), src[1].clone()]);
    let err = split_input(&ivf).unwrap_err().message();
    assert!(err.contains("cannot anchor"), "{err}");
}

#[test]
fn changed_sequence_header_drops_the_anchor() {
    let src = src_tus();
    let mut other = encoder_header();
    other.max_frame_width = 320;
    let changed = wrap_tu(vec![obu(
        ObuType::SequenceHeader,
        seq_header::emit_sequence_header(&other),
    )]);
    let ivf = ivf_of(vec![src[0].clone(), changed, src[1].clone()]);
    assert!(split_input(&ivf).is_err());
}

#[test]
fn split_messages_name_each_temporal_unit() {
    assert_eq!(
        split_input(&ivf_of(vec![])).unwrap_err().message(),
        "input carries no temporal units"
    );
    let sh = src_sh();
    let src = src_tus();
    let bad_seq = wrap_tu(vec![obu(ObuType::SequenceHeader, vec![0x60])]);
    let layered = wrap_tu(vec![
        obu(ObuType::Frame, inter_payload(1, 2, 0)),
        obu(ObuType::Frame, inter_payload(1, 2, 0)),
    ]);
    let msg = split_input(&ivf_of(vec![
        src[1].clone(),
        src[0].clone(),
        vec![0x80],
        bad_seq,
        layered,
        coded_frame_tu(&sh, frame_header::INTER_FRAME, true, true, true, 1, 0),
        coded_frame_tu(&sh, frame_header::INTER_FRAME, false, true, true, 1, 1),
        wrap_tu(vec![obu(ObuType::Frame, vec![])]),
    ]))
    .unwrap_err()
    .message();
    let lines: Vec<&str> = msg.split('\n').collect();
    assert_eq!(
        lines[0],
        "no usable keyframe+golden pair in the first 8 temporal unit(s) (input has 8):"
    );
    assert_eq!(
        lines[1],
        "  TU0: frame header unreadable — coded frame before any sequence header"
    );
    assert_eq!(
        lines[2],
        "  TU1: anchor — sequence header + shown KEY_FRAME (order_hint 0)"
    );
    assert_eq!(lines[3], "  TU2: unreadable — obu_forbidden_bit set");
    assert_eq!(lines[4], "  TU3: unreadable — bad sequence header: seq_profile > 2");
    assert_eq!(
        lines[5],
        "  TU4: 2 coded frames in one TU (spatial/SVC layering) — unsupported"
    );
    assert_eq!(
        lines[6],
        "  TU5: shown INTER_FRAME refreshes no reference slots — cannot be re-shown"
    );
    assert_eq!(lines[7], "  TU6: invisible INTER_FRAME — skipped (not shown)");
    assert_eq!(lines[8], "  TU7: frame header unreadable — unexpected end of OBU payload");
    assert_eq!(
        lines[9],
        "anchor is TU1; wanted after it: a shown non-key showable frame with \
         refresh_frame_flags != 0, order_hint == keyframe's + 1"
    );
    assert_eq!(lines.len(), 10);
}

// ---------- containers ----------

#[test]
fn obu_stream_roundtrips() {
    let packets = src_tus();
    let stream = write_obu_stream(&packets);
    let input = read(&stream).ok().unwrap();
    assert_eq!(input.format, Format::Obu);
    assert_eq!(input.ivf.frames.len(), packets.len());
    // Every OBU has a size field, so normalization is a byte-exact no-op.
    for (i, pkt) in packets.iter().enumerate() {
        assert_eq!(&input.ivf.frames[i].1, pkt);
    }
    assert_eq!((input.ivf.width, input.ivf.height), (640, 640));
}

#[test]
fn annexb_roundtrips() {
    let packets = src_tus();
    let stream = write_annexb(&packets);
    let input = read(&stream).ok().unwrap();
    assert_eq!(input.format, Format::AnnexB);
    assert_eq!(input.ivf.frames.len(), packets.len());
    for (i, pkt) in packets.iter().enumerate() {
        assert_eq!(&input.ivf.frames[i].1, pkt);
    }
}

fn td_count(tu: &[u8]) -> usize {
    parse_obus(tu)
        .unwrap()
        .iter()
        .filter(|o| o.obu_type == ObuType::TemporalDelimiter)
        .count()
}

#[test]
fn obu_stream_merge_keeps_single_leading_td() {
    // Layout encoders can emit: a frameless [TD, seq] TU followed by
    // [TD, KF] [TD, f] ... — merging the frameless group must not leave
    // the next TU's TemporalDelimiter stranded mid-TU.
    let packets = src_tus();
    let first = parse_obus(&packets[0]).unwrap();
    assert_eq!(first[0].obu_type, ObuType::TemporalDelimiter);
    assert_eq!(first[1].obu_type, ObuType::SequenceHeader);

    let mut stream = Vec::new();
    first[0].write(&mut stream); // TD
    first[1].write(&mut stream); // seq header alone in its own TU
    Obu::temporal_delimiter().write(&mut stream); // fresh TD opens the frame TU
    for obu in &first[2..] {
        obu.write(&mut stream);
    }
    for pkt in &packets[1..] {
        stream.extend_from_slice(pkt);
    }

    // The merge itself must produce a spec-valid TU, not just rely on
    // reading to drop the stray delimiter.
    let tus = split_obu_stream(&stream).unwrap();
    assert_eq!(tus.len(), packets.len());
    assert_eq!(td_count(&tus[0]), 1);

    let input = read(&stream).ok().unwrap();
    assert_eq!(input.ivf.frames.len(), packets.len());
    let obus0 = parse_obus(&input.ivf.frames[0].1).unwrap();
    assert_eq!(td_count(&input.ivf.frames[0].1), 1);
    // TD is first; the sequence header still precedes the frame it governs.
    assert_eq!(obus0[0].obu_type, ObuType::TemporalDelimiter);
    assert_eq!(obus0[1].obu_type, ObuType::SequenceHeader);
    assert!(obus0.iter().any(|o| o.obu_type == ObuType::Frame));
}

#[test]
fn obu_stream_trailing_frameless_tu_keeps_single_leading_td() {
    // A trailing [TD, metadata] group merges into the last frame TU;
    // its delimiter must not end up mid-TU either.
    let packets = src_tus();
    let mut stream = write_obu_stream(&packets);
    Obu::temporal_delimiter().write(&mut stream);
    Obu {
        obu_type: ObuType::Metadata,
        extension: None,
        payload: vec![0xde, 0xad, 0xbe, 0xef],
    }
    .write(&mut stream);

    let tus = split_obu_stream(&stream).unwrap();
    assert_eq!(tus.len(), packets.len());
    assert_eq!(td_count(tus.last().unwrap()), 1);

    let input = read(&stream).ok().unwrap();
    assert_eq!(input.ivf.frames.len(), packets.len());
    let last = parse_obus(&input.ivf.frames.last().unwrap().1).unwrap();
    assert_eq!(td_count(&input.ivf.frames.last().unwrap().1), 1);
    assert_eq!(last.first().unwrap().obu_type, ObuType::TemporalDelimiter);
    assert_eq!(last.last().unwrap().obu_type, ObuType::Metadata);
}

#[test]
fn ivf_packet_with_mid_tu_td_is_normalized() {
    // IVF input bypasses the stream demuxer, so canonicalization runs in
    // read(): splice a stray TD into packet 0 and confirm it is dropped.
    let mut ivf = ivf::read(&src_ivf()).unwrap();
    let (ts, tu) = ivf.frames[0].clone();
    let mut mutated = Vec::new();
    for obu in parse_obus(&tu).unwrap() {
        obu.write(&mut mutated);
        if obu.obu_type == ObuType::SequenceHeader {
            Obu::temporal_delimiter().write(&mut mutated); // stray mid-TU TD
        }
    }
    ivf.frames[0] = (ts, mutated);

    let input = read(&ivf::write(&ivf)).ok().unwrap();
    assert_eq!(input.format, Format::Ivf);
    assert_eq!(input.ivf.frames.len(), ivf.frames.len());
    assert_eq!(td_count(&input.ivf.frames[0].1), 1);
    let obus0 = parse_obus(&input.ivf.frames[0].1).unwrap();
    assert_eq!(obus0[0].obu_type, ObuType::TemporalDelimiter);
    assert_eq!(obus0[1].obu_type, ObuType::SequenceHeader);
}

#[test]
fn obu_stream_without_temporal_delimiters() {
    // Strip every TD OBU; grouping must fall back to frame boundaries.
    let packets = src_tus();
    let mut stream = Vec::new();
    for pkt in &packets {
        for obu in parse_obus(pkt).unwrap() {
            if obu.obu_type != ObuType::TemporalDelimiter {
                obu.write(&mut stream);
            }
        }
    }
    let input = read(&stream).ok().unwrap();
    assert_eq!(input.ivf.frames.len(), packets.len());
    let (key, golden) = split_input(&input.ivf).unwrap();
    assert!(tu_contains(&key, ObuType::SequenceHeader));
    assert!(!golden.is_empty());
}

fn tu_contains(tu: &[u8], t: ObuType) -> bool {
    parse_obus(tu).unwrap().iter().any(|o| o.obu_type == t)
}

#[test]
fn rejects_mp4_and_ebml_and_garbage() {
    let mut mp4ish = vec![0u8; 4];
    mp4ish.extend_from_slice(b"ftypisom");
    mp4ish.extend_from_slice(&[0u8; 32]);
    let err = read(&mp4ish).err().expect("mp4 accepted");
    assert!(err.message().contains("MP4"));

    let ebml = [0x1a, 0x45, 0xdf, 0xa3, 0, 0, 0, 0];
    let err = read(&ebml).err().expect("ebml accepted");
    assert!(err.message().contains("WebM"));

    assert!(read(b"definitely not a bitstream").is_err());
}

#[test]
fn stream_rate_comes_from_timing_info_as_an_exact_rational() {
    let tus_with = |sh: &SequenceHeader| {
        let mut tus = src_tus();
        tus[0] = wrap_tu(vec![
            obu(ObuType::SequenceHeader, seq_header::emit_sequence_header(sh)),
            obu(ObuType::Frame, key_payload(10)),
        ]);
        tus
    };
    let ntsc = seq_header::with_timing_info_rate(&src_sh(), 30000, 1001);
    let input = read(&write_obu_stream(&tus_with(&ntsc))).ok().unwrap();
    assert_eq!((input.ivf.timebase_den, input.ivf.timebase_num), (30000, 1001));
    assert_eq!(input.ivf.rate(), (30000, 1001));
    // In lowest terms, with the ticks of a picture counted in.
    let mut ticks = seq_header::with_timing_info_rate(&src_sh(), 120, 2);
    ticks.num_ticks_per_picture_minus_1 = 1;
    let input = read(&write_obu_stream(&tus_with(&ticks))).ok().unwrap();
    assert_eq!((input.ivf.timebase_den, input.ivf.timebase_num), (30, 1));
    // Unusable timing falls back to 30/1.
    let mut unset = seq_header::with_timing_info(&src_sh(), 30);
    unset.time_scale = 0;
    let input = read(&write_obu_stream(&tus_with(&unset))).ok().unwrap();
    assert_eq!((input.ivf.timebase_den, input.ivf.timebase_num), (30, 1));
    // A rate that no IVF timebase holds.
    let mut slow = seq_header::with_timing_info_rate(&src_sh(), 1, u32::MAX);
    slow.num_ticks_per_picture_minus_1 = 1;
    let err = read(&write_annexb(&tus_with(&slow))).err();
    assert_eq!(err, Some(ContainerError::FramePeriod));
}

#[test]
fn container_errors() {
    let annexb = |tus: &[Vec<u8>]| read(&write_annexb(tus)).err().unwrap();
    let src = src_tus();
    assert_eq!(annexb(&src[..1]), ContainerError::TooFewUnits);
    assert_eq!(annexb(&[junk_tu(), junk_tu()]), ContainerError::NoSequenceHeader);
    let bad = wrap_tu(vec![obu(ObuType::SequenceHeader, vec![0x60])]);
    let err = annexb(&[junk_tu(), bad]);
    assert_eq!(
        err,
        ContainerError::BadSequenceHeader { tu: 1, cause: Error::SeqProfile }
    );
    assert_eq!(err.message(), "TU 1: bad sequence header");
    assert_eq!(err.chain(), "TU 1: bad sequence header: seq_profile > 2");
    assert_eq!(
        annexb(&[seq_only_tu(), junk_tu()]),
        ContainerError::NoCodedFrame(None)
    );
    let err = annexb(&[seq_only_tu(), wrap_tu(vec![obu(ObuType::Frame, vec![0x10])])]);
    assert_eq!(
        err.message(),
        "no decodable coded frame found (TU 1: frame header unreadable: unexpected end of OBU payload)"
    );
    let err = annexb(&[
        seq_only_tu(),
        wrap_tu(vec![obu(ObuType::Frame, key_payload(0)[..4].to_vec())]),
    ]);
    assert_eq!(
        err.message(),
        "no decodable coded frame found (TU 1: bad uncompressed header: unexpected end of OBU payload)"
    );

    assert_eq!(
        read(b"DKIF").err(),
        Some(ContainerError::Ivf(Error::IvfHeaderTruncated))
    );
    assert_eq!(read(&[]).err(), Some(ContainerError::Unrecognized(Error::AnnexBEmpty)));
    let err = read(&[0x05, 0x01]).err().unwrap();
    assert_eq!(err, ContainerError::Unrecognized(Error::AnnexBTemporalUnitTruncated));
    assert_eq!(
        err.chain(),
        "unrecognized input: expected IVF, a low-overhead OBU stream, or Annex-B: \
         truncated Annex-B temporal unit"
    );
    let cause = |data: &[u8]| match read(data).err().unwrap() {
        ContainerError::Unrecognized(e) => e,
        e => panic!("{}", e.message()),
    };
    assert_eq!(cause(&[0x80]), Error::AnnexBTemporalUnitSize { too_long: false });
    assert_eq!(cause(&[0x80; 9]), Error::AnnexBTemporalUnitSize { too_long: true });
    assert_eq!(cause(&[0x01, 0x80]), Error::AnnexBFrameUnitSize { too_long: false });
    assert_eq!(cause(&[0x01, 0x01]), Error::AnnexBFrameUnitOverrun);
    assert_eq!(cause(&[0x02, 0x01, 0x80]), Error::AnnexBObuSize { too_long: false });
    assert_eq!(cause(&[0x02, 0x01, 0x01]), Error::AnnexBObuOverrun);
    assert_eq!(cause(&[0x02, 0x01, 0x00]), Error::AnnexBEmptyObu);
    assert_eq!(cause(&[0x03, 0x02, 0x01, 0x80]), Error::ObuForbiddenBit);
    assert_eq!(cause(&[0x03, 0x02, 0x01, 0x14]), Error::AnnexBObuHeaderTruncated);
    assert_eq!(cause(&[0x03, 0x02, 0x01, 0x48]), Error::UnknownObuType(9));
    assert_eq!(
        Error::AnnexBObuSize { too_long: true }.chain(),
        "bad Annex-B OBU size: leb128 too long"
    );
    assert_eq!(split_obu_stream(&[0x32, 0x05, 0x00]), Err(Error::ObuOverrunsStream));
}

#[test]
fn geometry_prefers_an_intra_frame() {
    // An inter frame in front is read against empty slots; the keyframe
    // behind it gives the size.
    let src = src_tus();
    let input = read(&write_annexb(&[seq_only_tu(), src[1].clone(), src[0].clone()])).ok().unwrap();
    assert_eq!((input.ivf.width, input.ivf.height), (640, 640));
    assert_eq!(input.ivf.frames.len(), 3);
}

#[test]
fn wide_frames_do_not_fit_an_ivf_header() {
    let with_size = |w: u32, h: u32| {
        let mut sh = encoder_header();
        sh.frame_width_bits_minus_1 = 15;
        sh.frame_height_bits_minus_1 = 15;
        sh.max_frame_width = w;
        sh.max_frame_height = h;
        let tu = wrap_tu(vec![
            obu(ObuType::SequenceHeader, seq_header::emit_sequence_header(&sh)),
            obu(ObuType::Frame, {
                // Tile increments differ with the size; spell them all out.
                let mut p = key_payload(0);
                p.extend_from_slice(&[0; 64]);
                p
            }),
        ]);
        read(&write_annexb(&[tu.clone(), tu])).err()
    };
    assert_eq!(with_size(65536, 640), Some(ContainerError::WidthLimit));
    assert_eq!(with_size(640, 65536), Some(ContainerError::HeightLimit));
    assert_eq!(with_size(65535, 65535), None);
}

// ---------- IVF ----------

/// Re-declare the header length and pad the file so packets start
/// there (the fixed header stays 32 bytes; the extension is zeroed).
fn with_header_len(data: &[u8], header_len: u16) -> Vec<u8> {
    let mut out = data.to_vec();
    out[6..8].copy_from_slice(&header_len.to_le_bytes());
    if header_len as usize > 32 {
        let pad = vec![0u8; header_len as usize - 32];
        out.splice(32..32, pad);
    }
    out
}

#[test]
fn extended_header_is_honored() {
    let base = ivf::read(&src_ivf()).unwrap();
    let padded = ivf::read(&with_header_len(&src_ivf(), 64)).unwrap();
    assert_eq!(padded.frames, base.frames);
    assert_eq!((padded.width, padded.height), (base.width, base.height));
    assert_eq!(
        (padded.timebase_den, padded.timebase_num),
        (base.timebase_den, base.timebase_num)
    );
}

#[test]
fn rejects_bad_header_len_and_version() {
    let mut bad = src_ivf();
    bad[6..8].copy_from_slice(&16u16.to_le_bytes());
    let err = ivf::read(&bad).err().expect("read succeeded").message();
    assert!(err.contains("header length"), "{err}");

    let mut bad = src_ivf();
    bad[6..8].copy_from_slice(&u16::MAX.to_le_bytes());
    let err = ivf::read(&bad).err().expect("read succeeded").message();
    assert!(err.contains("exceeds"), "{err}");

    let mut bad = src_ivf();
    bad[4..6].copy_from_slice(&1u16.to_le_bytes());
    let err = ivf::read(&bad).err().expect("read succeeded").message();
    assert!(err.contains("version"), "{err}");
}

#[test]
fn ivf_roundtrip_and_errors() {
    let f = ivf_of(vec![vec![1, 2, 3], vec![], vec![9; 300]]);
    let bytes = ivf::write(&f);
    assert_eq!(&bytes[..4], b"DKIF");
    assert_eq!(bytes.len(), 32 + 3 * 12 + 303);
    let again = ivf::read(&bytes).unwrap();
    assert_eq!(again.frames, f.frames);
    assert_eq!((again.width, again.height), (640, 640));

    let err = |data: &[u8]| ivf::read(data).err().unwrap();
    assert_eq!(err(&bytes[..31]), Error::IvfHeaderTruncated);
    let with = |at: usize, v: u8| {
        let mut b = bytes.clone();
        b[at] = v;
        b
    };
    assert_eq!(err(&with(0, b'X')), Error::NotIvf);
    assert_eq!(err(&with(4, 3)), Error::IvfVersion(3));
    assert_eq!(err(&with(6, 31)), Error::IvfHeaderLenTooSmall(31));
    assert_eq!(
        err(&with(7, 0x10)),
        Error::IvfHeaderLenTooLarge { header_len: 0x1020, file_len: bytes.len() }
    );
    assert_eq!(err(&with(8, b'V')), Error::IvfFourcc);
    assert_eq!(err(&bytes[..40]), Error::IvfFrameHeaderTruncated);
    assert_eq!(err(&bytes[..46]), Error::IvfFramePayloadTruncated);
    assert_eq!(Error::IvfVersion(3).message(), "unsupported IVF version 3");
}

#[test]
fn rate_is_in_lowest_terms() {
    let mut f = ivf_of(vec![]);
    f.timebase_den = 60000;
    f.timebase_num = 2002;
    assert_eq!(f.rate(), (30000, 1001));
    f.timebase_den = 0;
    assert_eq!(f.rate(), (30, 1));
    // Written unset, read as 30/1.
    let back = ivf::read(&ivf::write(&f)).ok().unwrap();
    assert_eq!((back.timebase_den, back.timebase_num), (30, 1));
}

// ---------- assembling ----------

#[test]
fn assembled_stream_follows_the_gop_plan() {
    let src = src_tus();
    let out = assemble(&src[0], &src[1], &assemble_params(7, 3)).ok().unwrap();
    assert_eq!(out.tus.len(), 7);
    assert_eq!(out.golden_slot, 1);
    // GOPs of three, then a GOP of one keyframe.
    assert_eq!(out.key_samples, vec![1, 4, 7]);
    let show = show_existing_tu(1);
    assert_eq!(out.tus[2], show);
    assert_eq!(out.tus[5], show);
    assert_eq!(out.tus[6], out.tus[0]);
    assert_eq!(out.tus[1], src[1]);
    assert_eq!(out.tus[4], src[1]);
    assert_eq!(out.tus[0], out.tus[3]);
    // The keyframe carries the sequence header with the timing declared.
    assert!(out.seq_header.timing_info_present);
    assert_eq!(out.seq_header.time_scale, 30);
    let obus = parse_obus(&out.tus[0]).unwrap();
    assert_eq!(obus[1].payload, seq_header::emit_sequence_header(&out.seq_header));
    assert_eq!(obus[2].payload, key_payload(1500));
    let full = parse_obus(&out.seq_header_obu).unwrap();
    assert_eq!(full[0].payload, obus[1].payload);
}

#[test]
fn show_existing_is_a_delimiter_and_a_tiny_header() {
    // show_existing_frame = 1, slot 5, trailing one.
    assert_eq!(show_existing_tu(5), vec![0x12, 0x00, 0x1a, 0x01, 0b1101_1000]);
    let sh = src_sh();
    let obus = parse_obus(&show_existing_tu(5)).unwrap();
    let info = frame_header::parse_frame_header_info(&obus[1].payload, &sh).unwrap();
    assert!(info.show_existing_frame && info.is_shown());
    assert_eq!(info.frame_to_show_map_idx, Some(5));
}

#[test]
fn decoder_model_splices_one_bit_into_each_frame() {
    let src = src_tus();
    let mut params = assemble_params(4, 4);
    params.decoder_model = true;
    let out = assemble(&src[0], &src[1], &params).ok().unwrap();
    assert!(out.seq_header.decoder_model_info_present);
    // Walking the spliced headers under the new sequence header reaches one
    // bit further and finds the same frames.
    let (mut before, mut after) = (Dpb::default(), Dpb::default());
    for (i, payload) in [key_payload(1500), inter_payload(1, 2, 21)].iter().enumerate() {
        let obus = parse_obus(&out.tus[i]).unwrap();
        let spliced = &obus.last().unwrap().payload;
        let a = scan_uncompressed_header(payload, &src_sh(), &mut before).unwrap();
        let b = scan_uncompressed_header(spliced, &out.seq_header, &mut after).unwrap();
        assert_eq!(b.end_pos, a.end_pos + 1);
        assert_eq!(b.removal_insert_pos, a.removal_insert_pos);
        assert_eq!((b.frame_type, b.order_hint), (a.frame_type, a.order_hint));
        assert_eq!(b.refresh_frame_flags, a.refresh_frame_flags);
        // The tile data behind the header is untouched.
        assert_eq!(spliced[b.end_pos.div_ceil(8)..], payload[a.end_pos.div_ceil(8)..]);
    }
}

#[test]
fn segments_start_with_keyframes() {
    let src = src_tus();
    let seg = |frames: u64| Segment { key_tu: &src[0], golden_tu: &src[1], frames };
    let out = assemble_multi(&[seg(3), seg(1), seg(5)], &assemble_params(9, 4)).ok().unwrap();
    assert_eq!(out.tus.len(), 9);
    // 3 | 1 | 4 + 1: no frame is a whole GOP behind its keyframe.
    assert_eq!(out.key_samples, vec![1, 4, 5, 9]);
}

#[test]
fn assemble_errors() {
    let src = src_tus();
    let err = |k: &[u8], g: &[u8], p: &AssembleParams| assemble(k, g, p).err().unwrap();
    let ok = assemble_params(10, 5);
    assert_eq!(
        assemble_multi(&[], &ok).err(),
        Some(AssembleError::NoSegments)
    );
    assert_eq!(err(&src[0], &src[1], &assemble_params(10, 1)), AssembleError::GopTooSmall);
    assert_eq!(err(&src[0], &src[1], &assemble_params(1, 5)), AssembleError::TooFewFrames);
    assert_eq!(
        err(&src[0], &src[1], &assemble_params(MAX_TOTAL_FRAMES + 1, 5)),
        AssembleError::TooManyFrames(MAX_TOTAL_FRAMES + 1)
    );
    let seg = |frames: u64| Segment { key_tu: &src[0], golden_tu: &src[1], frames };
    assert_eq!(
        assemble_multi(&[seg(3), seg(0)], &ok).err(),
        Some(AssembleError::EmptySegment(1))
    );
    assert_eq!(err(&kf_only_tu(), &src[1], &ok), AssembleError::NoSequenceHeader);
    assert_eq!(err(&[0x80], &src[1], &ok), AssembleError::Stream(Error::ObuForbiddenBit));
    assert_eq!(err(&src[0], &src[0], &ok), AssembleError::GoldenNotShowable { segment: 0, frame_type: 0 });
    assert_eq!(err(&src[0], &show_existing_tu(0), &ok), AssembleError::GoldenShowExisting);
    assert_eq!(err(&src[0], &junk_tu(), &ok), AssembleError::NoFrame);
    let sh = src_sh();
    let hidden = coded_frame_tu(&sh, frame_header::INTER_FRAME, false, true, true, 1, 1);
    assert_eq!(err(&src[0], &hidden, &ok), AssembleError::GoldenNotShown(0));
    let unstored = coded_frame_tu(&sh, frame_header::INTER_FRAME, true, true, true, 1, 0);
    assert_eq!(err(&src[0], &unstored, &ok), AssembleError::GoldenNoSlots);
    let mut no_key = seq_only_tu();
    for o in parse_obus(&src[1]).unwrap().iter().skip(1) {
        o.write(&mut no_key);
    }
    let not_key = err(&no_key, &src[1], &ok);
    assert_eq!(not_key, AssembleError::NotKeyFrame { segment: 0, got: Some(1) });
    assert_eq!(
        not_key.message(),
        "segment 0: first TU must contain a shown KEY_FRAME (got Some(1))"
    );
    let mut other = encoder_header();
    other.enable_cdef = false;
    let other_key = wrap_tu(vec![
        obu(ObuType::SequenceHeader, seq_header::emit_sequence_header(&other)),
        obu(ObuType::Frame, key_payload(10)),
    ]);
    let second = Segment { key_tu: &other_key, golden_tu: &src[1], frames: 2 };
    assert_eq!(
        assemble_multi(&[seg(2), second], &ok).err(),
        Some(AssembleError::SequenceHeaderMismatch(1))
    );
    let mut grain = encoder_header();
    grain.film_grain_params_present = true;
    let grain_key = wrap_tu(vec![
        obu(ObuType::SequenceHeader, seq_header::emit_sequence_header(&grain)),
        obu(ObuType::Frame, key_payload(10)),
    ]);
    let unsupported = err(&grain_key, &src[1], &ok);
    assert_eq!(unsupported, AssembleError::Unsupported(Error::FilmGrain));
    assert!(unsupported.chain().starts_with(
        "sequence header enables features this assembler does not support: film_grain"
    ));
    let mut variable = seq_header::with_timing_info(&src_sh(), 30);
    variable.equal_picture_interval = false;
    let variable_key = wrap_tu(vec![
        obu(ObuType::SequenceHeader, seq_header::emit_sequence_header(&variable)),
        obu(ObuType::Frame, key_payload(10)),
    ]);
    let mut model = assemble_params(10, 5);
    model.decoder_model = true;
    assert_eq!(
        err(&variable_key, &src[1], &model),
        AssembleError::DecoderModel(Error::DecoderModelVariableInterval)
    );
    let cut = wrap_tu(vec![
        obu(ObuType::SequenceHeader, seq_header::emit_sequence_header(&encoder_header())),
        obu(ObuType::Frame, key_payload(0)[..4].to_vec()),
    ]);
    assert_eq!(
        err(&cut, &src[1], &model),
        AssembleError::SpliceKey { segment: 0, cause: Error::UnexpectedEnd }
    );
    let cut = wrap_tu(vec![obu(ObuType::Frame, inter_payload(1, 2, 0)[..6].to_vec())]);
    assert_eq!(
        err(&src[0], &cut, &model),
        AssembleError::SpliceGolden { segment: 0, cause: Error::UnexpectedEnd }
    );
}

#[test]
fn output_timebase_is_never_zero() {
    let mut src = ivf_of(vec![]);
    src.timebase_den = 0;
    let f = to_ivf(&src, vec![vec![1], vec![2]], None);
    assert_eq!((f.timebase_den, f.timebase_num), (30, 1));
    assert_eq!(f.frames, vec![(0, vec![1]), (1, vec![2])]);
    let f = to_ivf(&ivf_of(vec![]), vec![], Some(0));
    assert_eq!((f.timebase_den, f.timebase_num), (30, 1));
    let f = to_ivf(&ivf_of(vec![]), vec![], Some(25));
    assert_eq!((f.timebase_den, f.timebase_num), (25, 1));
}

// ---------- expanding ----------

#[test]
fn expand_ivf_produces_gop_pattern() {
    let out = expand_ivf(&src_ivf(), &expand_params(Some(30), 90, 30)).unwrap();
    let ivf = ivf::read(&out).unwrap();
    assert_eq!(ivf.frames.len(), 90);
    // 3 GOPs x 30f: only the 3 key TUs (0,30,60) carry the big coded
    // keyframe; everything else is the tiny golden/show_existing repeat.
    for (i, (_, tu)) in ivf.frames.iter().enumerate() {
        let key = i % 30 == 0;
        assert_eq!(
            tu.len() > 1000,
            key,
            "frame {i}: {} B (key TU expected: {key})",
            tu.len()
        );
    }
}

#[test]
fn expand_ivf_multi_rejects_mismatched_header() {
    // Same IVF twice is fine; total = 2+2 across two segments.
    let src = src_ivf();
    let out = expand_ivf_multi(
        &[
            SegmentInput {
                ivf: &src,
                frames: 2,
            },
            SegmentInput {
                ivf: &src,
                frames: 2,
            },
        ],
        &expand_params(None, 4, 30),
    )
    .unwrap();
    assert_eq!(ivf::read(&out).unwrap().frames.len(), 4);

    let mut other = encoder_header();
    other.enable_cdef = false;
    let mut tus = src_tus();
    tus[0] = wrap_tu(vec![
        obu(ObuType::SequenceHeader, seq_header::emit_sequence_header(&other)),
        obu(ObuType::Frame, key_payload(10)),
    ]);
    let other = ivf_bytes(&tus);
    let err = expand_ivf_multi(
        &[
            SegmentInput { ivf: &src, frames: 2 },
            SegmentInput { ivf: &other, frames: 2 },
        ],
        &expand_params(None, 4, 30),
    )
    .unwrap_err();
    assert!(err.chain().contains("different sequence header"));
}

#[test]
fn expand_accepts_obu_and_annexb_inputs() {
    // The 2-frame input contract is container-agnostic: the same encode as
    // a raw OBU stream and as Annex-B must expand identically to the IVF.
    let packets = src_tus();
    let params = expand_params(Some(30), 60, 30);
    let expected = expand_ivf(&src_ivf(), &params).unwrap();
    for bytes in [write_obu_stream(&packets), write_annexb(&packets)] {
        let out = expand_ivf(&bytes, &params).unwrap();
        assert_eq!(out, expected);
    }
}

#[test]
fn expand_accepts_streams_without_delimiters() {
    let packets: Vec<Vec<u8>> = src_tus()
        .iter()
        .map(|tu| {
            let mut bare = Vec::new();
            for o in parse_obus(tu).unwrap().iter().skip(1) {
                o.write(&mut bare);
            }
            bare
        })
        .collect();
    let params = expand_params(Some(30), 60, 30);
    let expected = expand_ivf(&ivf_bytes(&packets), &params).unwrap();
    let stream: Vec<u8> = packets.concat();
    assert_eq!(expand_ivf(&stream, &params).unwrap(), expected);
    assert_eq!(expand_ivf(&write_annexb(&packets), &params).unwrap(), expected);
}

#[test]
fn expand_scans_past_leading_junk_tus() {
    // Condition-based acceptance: a leading frameless TU (metadata/padding)
    // doesn't displace the anchor+golden pair. For Annex-B the junk
    // TU is skipped entirely, so output stays byte-identical; the IVF and
    // OBU-stream demuxers merge leading frameless OBUs into the first
    // coded TU, so there it only has to succeed.
    let mut tus = vec![junk_tu()];
    tus.extend(src_tus());
    let params = expand_params(Some(30), 60, 30);
    let expected = expand_ivf(&src_ivf(), &params).unwrap();
    let out = expand_ivf(&write_annexb(&tus), &params).unwrap();
    assert_eq!(out, expected);
    for bytes in [ivf_bytes(&tus), write_obu_stream(&tus)] {
        let out = expand_ivf(&bytes, &params).unwrap();
        assert_eq!(ivf::read(&out).unwrap().frames.len(), 60);
    }
}

#[test]
fn expand_multi_scans_each_segment_source() {
    // Playlist path: segment 2's input carries the pair at non-zero offsets
    // (junk TU in front, trailing coded frames behind). Both sources get the
    // same scan.
    let mut offset = vec![junk_tu()];
    offset.extend(src_tus());
    let offset = ivf_bytes(&offset);
    let src = src_ivf();
    let out = expand_ivf_multi(
        &[
            SegmentInput {
                ivf: &src,
                frames: 2,
            },
            SegmentInput {
                ivf: &offset,
                frames: 2,
            },
        ],
        &expand_params(None, 4, 30),
    )
    .unwrap();
    assert_eq!(ivf::read(&out).unwrap().frames.len(), 4);
}

#[test]
fn expand_rejects_all_keyframe_input() {
    // -g 1 style: seq+KF on every TU — nearest-miss diagnostics must name
    // the forced keyframes.
    let src = src_tus();
    let mut tus = Vec::new();
    for _ in 0..3 {
        tus.push(src[0].clone());
    }
    let err = expand_ivf(&ivf_bytes(&tus), &expand_params(None, 10, 10)).unwrap_err();
    let msg = err.chain();
    assert!(msg.contains("KEY_FRAME"), "{msg}");
}

#[test]
fn expand_treats_zero_timebase_as_unset() {
    // Muxers that don't know the rate write timebase 0/0; it must fall
    // back to 30/1 and the output IVF must never carry a zero-rate pair.
    let mut src = ivf::read(&src_ivf()).unwrap();
    src.timebase_den = 0;
    src.timebase_num = 0;
    let input = ivf::write(&src);
    let out = expand_ivf(&input, &expand_params(None, 10, 10)).unwrap();
    let out_ivf = ivf::read(&out).unwrap();
    assert_eq!(out_ivf.rate(), (30, 1));
    assert_eq!((out_ivf.timebase_den, out_ivf.timebase_num), (30, 1));

    // An OBU stream built from the same TUs must land on the same default
    // when the sequence header declares no usable timing.
    let obu_stream = write_obu_stream(&src_tus());
    let out = expand_ivf(&obu_stream, &expand_params(None, 10, 10)).unwrap();
    assert_eq!(ivf::read(&out).unwrap().rate(), (30, 1));
}

#[test]
fn expand_ivf_rejects_garbage() {
    assert!(expand_ivf(b"not ivf", &expand_params(None, 10, 10)).is_err());
}

#[test]
fn expand_rejects_degenerate_frame_counts() {
    for frames in [0, 1] {
        let err = expand_ivf(&src_ivf(), &expand_params(None, frames, 300))
            .unwrap_err()
            .chain();
        assert!(
            err.contains("at least 2 output frames") || err.contains("shorter than the sum"),
            "frames={frames}: {err}"
        );
    }
}

#[test]
fn expand_rejects_gop_below_two() {
    for gop in [0, 1] {
        let err = expand_ivf(&src_ivf(), &expand_params(None, 10, gop))
            .unwrap_err()
            .chain();
        assert!(err.contains("gop size must be >= 2"), "gop={gop}: {err}");
    }
}

#[test]
fn expand_rejects_absurd_frame_count() {
    let err = expand_ivf(&src_ivf(), &expand_params(None, 1000000000000, 300))
        .unwrap_err()
        .chain();
    assert!(err.contains("exceeds"), "{err}");
}

#[test]
fn expand_errors_name_the_segment() {
    let src = src_ivf();
    let p = expand_params(None, 4, 30);
    assert!(matches!(
        expand_ivf_multi(&[], &p).unwrap_err(),
        ExpandError::NoSegments
    ));
    let err = expand_ivf_multi(
        &[
            SegmentInput { ivf: &src, frames: 2 },
            SegmentInput { ivf: b"DKIF", frames: 2 },
        ],
        &p,
    )
    .unwrap_err();
    assert_eq!(err.message(), "parsing segment 1 input");
    assert_eq!(err.chain(), "parsing segment 1 input: IVF header truncated");
    let keys = ivf_bytes(&src_tus()[..1]);
    let err = expand_ivf(&keys, &p).unwrap_err();
    assert_eq!(err.message(), "splitting segment 0 input");
    assert!(err.chain().contains("no coded frame follows it in the window"));
    let err = expand_ivf_multi(
        &[
            SegmentInput { ivf: &src, frames: u64::MAX },
            SegmentInput { ivf: &src, frames: u64::MAX },
        ],
        &p,
    )
    .unwrap_err();
    assert!(err.message().contains("exceeds"));
}

#[test]
fn expand_keeps_an_exact_rate() {
    let mut src = ivf::read(&src_ivf()).unwrap();
    src.timebase_den = 60000;
    src.timebase_num = 2002;
    let out = expand_ivf(&ivf::write(&src), &expand_params(None, 4, 4)).unwrap();
    let out = ivf::read(&out).unwrap();
    assert_eq!((out.timebase_den, out.timebase_num), (60000, 2002));
    // The declared timing is in lowest terms.
    let obus = parse_obus(&out.frames[0].1).unwrap();
    let sh = seq_header::parse_sequence_header(&obus[1].payload).unwrap();
    assert_eq!((sh.time_scale, sh.num_units_in_display_tick), (30000, 1001));
}

// ---------- inspecting ----------

#[test]
fn expanded_streams_pass_the_checks() {
    for decoder_model in [false, true] {
        let mut p = expand_params(Some(30), 12, 5);
        p.decoder_model = decoder_model;
        let out = ivf::read(&expand_ivf(&src_ivf(), &p).unwrap()).unwrap();
        let rep = analyze(&out).ok().unwrap();
        assert_eq!(rep.tus.len(), 12);
        assert_eq!(rep.key_tus, vec![0, 5, 10]);
        assert_eq!(rep.golden_tus, vec![1, 6, 11]);
        assert_eq!(rep.show_existing_tus, vec![2, 3, 4, 7, 8, 9]);
        for (name, ok, detail) in checks(&rep) {
            assert!(ok, "{name}: {detail}");
        }
        assert_eq!(
            describe_kind(&rep.tus[1].kind),
            "INTER_FRAME show=1 showable=1 oh=1 refresh=00000010 refs=[0, 1, 2, 3, 4, 5, 6]"
        );
        assert_eq!(
            describe_kind(&rep.tus[2].kind),
            "show_existing slot=1 (holds inter)"
        );
        assert_eq!(
            describe_kind(&rep.tus[0].kind),
            "KEY_FRAME show=1 showable=0 oh=0 refresh=11111111"
        );
        assert!(rep.tus[0].has_seq_header && !rep.tus[1].has_seq_header);
        assert_eq!(rep.tus[2].bytes, 5);
        assert_eq!(rep.tus[3].timestamp, 3);
    }
}

#[test]
fn checks_name_what_is_wrong() {
    let src = src_tus();
    // Slot 0 still holds the keyframe.
    let rep = analyze(&ivf_of(vec![src[0].clone(), show_existing_tu(0)])).ok().unwrap();
    let found = checks(&rep);
    assert_eq!(found[2].0, "no show_existing of a KEY_FRAME");
    assert!(!found[2].1);
    assert_eq!(found[2].2, "TUs [1] re-show keyframes");
    assert_eq!(found[0], ("stream nonempty", true, "2 temporal units".to_string()));
    assert_eq!(found[3].2, "all TUs shown");
    assert_eq!(found[5].0, "keyframe count ≥ 1");
    assert_eq!(found[5].2, "1 shown keyframes");

    // A stream that starts with an inter frame.
    let mut first = seq_only_tu();
    for o in parse_obus(&src[1]).unwrap().iter().skip(1) {
        o.write(&mut first);
    }
    let rep = analyze(&ivf_of(vec![first])).ok().unwrap();
    let found = checks(&rep);
    assert!(!found[1].1 && !found[5].1 && found[4].1);
    assert!(matches!(rep.tus[0].kind, TuKind::Coded { frame_type: 1, .. }));
}

/// An invisible INTRA_ONLY_FRAME that cannot be shown later either.
fn hidden_intra_payload(order_hint: u64) -> Vec<u8> {
    let mut w = BitWriter::new();
    w.f(1, 0); // show_existing_frame
    w.f(2, 2); // INTRA_ONLY_FRAME
    w.f(1, 0); // show_frame
    w.f(1, 0); // showable_frame
    w.f(1, 0); // error_resilient_mode
    w.f(1, 0); // disable_cdf_update
    w.f(1, 0); // allow_screen_content_tools
    w.f(1, 0); // frame_size_override_flag
    w.f(7, order_hint);
    w.f(8, 0x04); // refresh_frame_flags
    w.f(1, 0); // render_and_frame_size_different
    write_coding(&mut w, false);
    with_tiles(w, 9)
}

#[test]
fn every_non_key_coded_frame_is_listed_and_checked() {
    let src = src_tus();
    let hidden = wrap_tu(vec![obu(ObuType::Frame, hidden_intra_payload(1))]);
    let rep = analyze(&ivf_of(vec![src[0].clone(), hidden, src[1].clone()])).ok().unwrap();
    assert_eq!(rep.key_tus, vec![0]);
    assert_eq!(rep.golden_tus, vec![1, 2]);
    assert!(rep.show_existing_tus.is_empty());
    let found = checks(&rep);
    assert_eq!(
        found[4],
        (
            "golden frames are INTER+showable",
            false,
            "2 non-key coded frames".to_string()
        )
    );
    assert_eq!(found[3].2, "hidden coded frames at [1]");
}

#[test]
fn seek_granularity_is_kept_across_switches() {
    let src = src_tus();
    let seg = |frames: u64| Segment { key_tu: &src[0], golden_tu: &src[1], frames };
    for gop in 2..7u64 {
        let out = assemble_multi(&[seg(4), seg(1), seg(13), seg(7)], &assemble_params(25, gop))
            .ok()
            .unwrap();
        let keys = out.key_samples;
        assert_eq!(keys[0], 1);
        assert!(keys.windows(2).all(|k| u64::from(k[1] - k[0]) <= gop), "{gop}: {keys:?}");
        assert!(out.tus.len() as u64 + 1 - u64::from(*keys.last().unwrap()) <= gop);
    }
}

#[test]
fn skippable_units_anywhere_in_front_keep_the_pair() {
    let src = src_tus();
    let skippable = vec![
        wrap_tu(vec![]),
        meta_padding_tu(),
        show_existing_tu(3),
        wrap_tu(vec![obu(ObuType::Frame, hidden_intra_payload(1))]),
    ];
    for unit in &skippable {
        for at in 0..2 {
            let mut tus = src.clone();
            tus.insert(at, unit.clone());
            let (k, g) = split_input(&ivf_of(tus)).ok().unwrap();
            assert_eq!((k, g), (src[0].clone(), src[1].clone()));
        }
    }
    let mut tus = vec![src[0].clone()];
    tus.extend(skippable);
    tus.push(src[1].clone());
    let (k, g) = split_input(&ivf_of(tus)).ok().unwrap();
    assert_eq!((k, g), (src[0].clone(), src[1].clone()));
}

#[test]
fn inspect_errors() {
    let src = src_tus();
    let err = |tus: Vec<Vec<u8>>| analyze(&ivf_of(tus)).err().unwrap();
    assert_eq!(err(vec![]), InspectError::NoSequenceHeader);
    assert_eq!(
        err(vec![vec![0x80]]),
        InspectError::BadFraming { tu: 0, cause: Error::ObuForbiddenBit }
    );
    assert_eq!(
        err(vec![wrap_tu(vec![obu(ObuType::SequenceHeader, vec![0x60])])]),
        InspectError::BadSequenceHeader { tu: 0, cause: Error::SeqProfile }
    );
    assert_eq!(err(vec![src[1].clone()]), InspectError::FrameBeforeHeader);
    assert_eq!(err(vec![seq_only_tu()]), InspectError::NoFrame(0));
    let mut other = encoder_header();
    other.enable_cdef = false;
    let changed = wrap_tu(vec![obu(
        ObuType::SequenceHeader,
        seq_header::emit_sequence_header(&other),
    )]);
    assert_eq!(err(vec![src[0].clone(), changed]), InspectError::HeaderChanged(1));
    let mut early = seq_only_tu();
    for o in parse_obus(&show_existing_tu(0)).unwrap().iter().skip(1) {
        o.write(&mut early);
    }
    assert_eq!(err(vec![early]), InspectError::ShowBeforeCoded(0));
    let bad = err(vec![src[0].clone(), wrap_tu(vec![obu(ObuType::Frame, vec![])])]);
    assert_eq!(bad, InspectError::BadFrameHeader { tu: 1, cause: Error::UnexpectedEnd });
    assert_eq!(bad.chain(), "TU 1: bad frame header: unexpected end of OBU payload");
    let cut = wrap_tu(vec![obu(ObuType::Frame, inter_payload(1, 2, 0)[..6].to_vec())]);
    assert_eq!(
        err(vec![src[0].clone(), cut]),
        InspectError::ScanFailed { tu: 1, cause: Error::UnexpectedEnd }
    );
}
