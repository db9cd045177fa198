//! Sequence headers, frame headers and header splicing.

use stillcast::bitio::{BitReader, BitWriter};
use stillcast::error::Error;
use stillcast::frame_header::{parse_frame_header_info, INTER_FRAME, KEY_FRAME};
use stillcast::seq_header::{
    emit_sequence_header, parse_sequence_header, with_decoder_model, with_decoder_model_rate,
    with_timing_info, with_timing_info_rate, OperatingPoint, SequenceHeader, SELECT_INTEGER_MV,
    SELECT_SCREEN_CONTENT_TOOLS,
};
use stillcast::uheader::{scan_uncompressed_header, splice_header_bits, Dpb};

fn libaom_header() -> SequenceHeader {
    SequenceHeader {
        operating_points: vec![OperatingPoint {
            idc: 0,
            seq_level_idx: 20,
            ..Default::default()
        }],
        frame_width_bits_minus_1: 10,
        frame_height_bits_minus_1: 10,
        max_frame_width: 640,
        max_frame_height: 640,
        use_128x128_superblock: true,
        enable_filter_intra: true,
        enable_intra_edge_filter: true,
        enable_interintra_compound: true,
        enable_masked_compound: true,
        enable_warped_motion: true,
        enable_dual_filter: true,
        enable_order_hint: true,
        enable_jnt_comp: false,
        enable_ref_frame_mvs: false,
        seq_choose_screen_content_tools: true,
        seq_force_screen_content_tools: SELECT_SCREEN_CONTENT_TOOLS,
        seq_choose_integer_mv: true,
        seq_force_integer_mv: SELECT_INTEGER_MV,
        order_hint_bits: 8,
        enable_superres: false,
        enable_cdef: true,
        enable_restoration: true,
        color_primaries: 2,
        transfer_characteristics: 2,
        matrix_coefficients: 2,
        color_range: Some(false),
        subsample_x: true,
        subsample_y: true,
        chroma_sample_position: 0,
        ..Default::default()
    }
}

#[test]
fn seq_header_roundtrip_is_byte_exact() {
    // A typical libaom-emitted header shape (no timing info).
    let mut sh = libaom_header();
    let bytes = emit_sequence_header(&sh);
    let reparsed = parse_sequence_header(&bytes).unwrap();
    assert_eq!(emit_sequence_header(&reparsed), bytes);
    assert!(!reparsed.timing_info_present);

    // Timing injection flips only the timing section.
    sh = with_timing_info(&reparsed, 30);
    let bytes2 = emit_sequence_header(&sh);
    let reparsed2 = parse_sequence_header(&bytes2).unwrap();
    assert_eq!(emit_sequence_header(&reparsed2), bytes2);
    assert!(reparsed2.timing_info_present);
    assert!(reparsed2.equal_picture_interval);
    assert_eq!(reparsed2.time_scale, 30);
    assert_eq!(reparsed2.num_ticks_per_picture_minus_1, 0);
}

fn parsed() -> SequenceHeader {
    parse_sequence_header(&emit_sequence_header(&libaom_header())).unwrap()
}

#[test]
fn seq_header_fields_come_back() {
    let sh = parsed();
    assert_eq!(sh.seq_profile, 0);
    assert_eq!((sh.max_frame_width, sh.max_frame_height), (640, 640));
    assert_eq!(sh.operating_points.len(), 1);
    assert_eq!(sh.operating_points[0].seq_level_idx, 20);
    assert_eq!(sh.seq_level_idx, 20);
    assert_eq!(sh.seq_tier, 0);
    assert_eq!(sh.order_hint_bits, 8);
    assert_eq!(sh.bit_depth, 8);
    assert!(sh.use_128x128_superblock && sh.enable_cdef && sh.enable_restoration);
    assert!(!sh.mono_chrome && sh.subsample_x && sh.subsample_y);
    assert!(!sh.film_grain_params_present);
    assert!(sh.check_supported().is_ok());
}

#[test]
fn timing_info_keeps_an_exact_rate() {
    let sh = with_timing_info_rate(&parsed(), 30000, 1001);
    assert_eq!((sh.time_scale, sh.num_units_in_display_tick), (30000, 1001));
    let again = parse_sequence_header(&emit_sequence_header(&sh)).unwrap();
    assert_eq!((again.time_scale, again.num_units_in_display_tick), (30000, 1001));
    assert!(again.equal_picture_interval);
}

#[test]
fn decoder_model_is_declared_and_comes_back() {
    let sh = with_decoder_model(&parsed(), 30).unwrap();
    assert!(sh.decoder_model_info_present && sh.timing_info_present && sh.equal_picture_interval);
    assert!(!sh.needs_temporal_point_info());
    let bytes = emit_sequence_header(&sh);
    let again = parse_sequence_header(&bytes).unwrap();
    assert_eq!(emit_sequence_header(&again), bytes);
    assert!(again.decoder_model_info_present);
    assert_eq!(again.time_scale, 30);

    let ntsc = with_decoder_model_rate(&parsed(), 30000, 1001).unwrap();
    assert_eq!((ntsc.time_scale, ntsc.num_units_in_display_tick), (30000, 1001));
}

#[test]
fn the_longest_header_is_short_and_comes_back() {
    let mut sh = libaom_header();
    sh.operating_points = vec![
        OperatingPoint {
            idc: 4095,
            seq_level_idx: 31,
            seq_tier: true,
            initial_display_delay_present: true,
            initial_display_delay_minus_1: 15,
            ..Default::default()
        };
        32
    ];
    sh.seq_level_idx = 31;
    sh.seq_tier = 1;
    sh.initial_display_delay_present = true;
    let sh = with_decoder_model(&sh, u32::MAX).unwrap();
    let bytes = emit_sequence_header(&sh);
    assert!(bytes.len() > 300 && bytes.len() <= 400, "{}", bytes.len());
    let back = parse_sequence_header(&bytes).unwrap();
    assert_eq!(back.operating_points.len(), 32);
    assert_eq!(back.operating_points[31].decoder_buffer_delay, 90_000);
    assert_eq!(emit_sequence_header(&back), bytes);
}

#[test]
fn fields_that_are_not_written_do_not_matter() {
    let plain = emit_sequence_header(&libaom_header());
    let mut sh = libaom_header();
    sh.num_ticks_per_picture_minus_1 = u64::MAX;
    sh.buffer_delay_length_minus_1 = 200;
    assert_eq!(emit_sequence_header(&sh), plain);
}

#[test]
fn decoder_model_needs_equal_intervals() {
    let mut sh = with_timing_info(&parsed(), 30);
    sh.equal_picture_interval = false;
    assert_eq!(
        with_decoder_model(&sh, 30).err(),
        Some(Error::DecoderModelVariableInterval)
    );
}

#[test]
fn seq_header_errors() {
    // seq_profile 3.
    assert_eq!(parse_sequence_header(&[0b0110_0000, 0, 0]).err(), Some(Error::SeqProfile));
    assert_eq!(parse_sequence_header(&[]).err(), Some(Error::UnexpectedEnd));
    let mut short = emit_sequence_header(&libaom_header());
    short.truncate(4);
    assert_eq!(parse_sequence_header(&short).err(), Some(Error::UnexpectedEnd));
}

#[test]
fn unsupported_headers_are_named() {
    let with = |f: &dyn Fn(&mut SequenceHeader)| {
        let mut sh = parsed();
        f(&mut sh);
        sh.check_supported().err()
    };
    assert_eq!(
        with(&|sh| sh.reduced_still_picture_header = true),
        Some(Error::ReducedStillPicture)
    );
    assert_eq!(with(&|sh| sh.frame_id_numbers_present = true), Some(Error::FrameIdNumbers));
    assert_eq!(
        with(&|sh| {
            sh.decoder_model_info_present = true;
            sh.equal_picture_interval = false;
        }),
        Some(Error::UnequalIntervals)
    );
    assert_eq!(with(&|sh| sh.film_grain_params_present = true), Some(Error::FilmGrain));
}

fn key_header(order_hint: u64) -> Vec<u8> {
    let mut w = BitWriter::new();
    w.f(1, 0); // show_existing_frame
    w.f(2, 0); // KEY_FRAME
    w.f(1, 1); // show_frame
    w.f(1, 0); // disable_cdf_update
    w.f(1, 0); // allow_screen_content_tools
    w.f(1, 0); // frame_size_override_flag
    w.f(8, order_hint);
    w.trailing_bits();
    w.into_bytes()
}

#[test]
fn frame_header_info_of_a_shown_key_frame() {
    let info = parse_frame_header_info(&key_header(5), &parsed()).unwrap();
    assert!(!info.show_existing_frame);
    assert_eq!(info.frame_type, Some(KEY_FRAME));
    assert!(info.show_frame && !info.showable_frame && info.is_shown());
    assert_eq!(info.order_hint, 5);
    assert_eq!(info.refresh_frame_flags, 0xff);
}

#[test]
fn frame_header_info_reads_past_removal_times() {
    // With a decoder model the removal flag stands in front of the refresh
    // flags; a time follows for each operating point that has the model.
    let mut sh = with_decoder_model(&parsed(), 30).unwrap();
    sh.operating_points[0].decoder_model_present = true;
    let mut w = BitWriter::new();
    w.f(1, 0);
    w.f(2, u64::from(INTER_FRAME));
    w.f(1, 1); // show_frame
    w.f(1, 0); // error_resilient_mode
    w.f(1, 0); // disable_cdf_update
    w.f(1, 0); // allow_screen_content_tools
    w.f(1, 0); // frame_size_override_flag
    w.f(8, 1); // order_hint
    w.f(3, 7); // primary_ref_frame
    w.f(1, 1); // buffer_removal_time_present_flag
    w.f(usize::from(sh.buffer_removal_time_length_minus_1) + 1, 0);
    w.f(8, 0x24);
    w.trailing_bits();
    let info = parse_frame_header_info(&w.into_bytes(), &sh).unwrap();
    assert_eq!(info.refresh_frame_flags, 0x24);
    assert!(info.showable_frame);
}

#[test]
fn frame_header_info_errors() {
    let with = |f: &dyn Fn(&mut SequenceHeader)| {
        let mut sh = parsed();
        f(&mut sh);
        parse_frame_header_info(&key_header(0), &sh).err()
    };
    assert_eq!(
        with(&|sh| sh.reduced_still_picture_header = true),
        Some(Error::FrameReducedStillPicture)
    );
    assert_eq!(with(&|sh| sh.frame_id_numbers_present = true), Some(Error::FrameWithIds));
    assert_eq!(
        with(&|sh| {
            sh.decoder_model_info_present = true;
            sh.equal_picture_interval = false;
        }),
        Some(Error::FrameUnequalIntervals)
    );
    // An invisible frame is refused like a shown one.
    let mut sh = parsed();
    sh.decoder_model_info_present = true;
    sh.equal_picture_interval = false;
    assert_eq!(
        parse_frame_header_info(&[0; 8], &sh).err(),
        Some(Error::FrameUnequalIntervals)
    );
    assert_eq!(
        parse_frame_header_info(&[], &parsed()).err(),
        Some(Error::UnexpectedEnd)
    );
}

#[test]
fn header_scan_errors() {
    let scan = |payload: &[u8], f: &dyn Fn(&mut SequenceHeader)| {
        let mut sh = parsed();
        f(&mut sh);
        scan_uncompressed_header(payload, &sh, &mut Dpb::default()).err()
    };
    let key = key_header(0);
    assert_eq!(
        scan(&key, &|sh| sh.reduced_still_picture_header = true),
        Some(Error::ScanReducedStillPicture)
    );
    assert_eq!(
        scan(&key, &|sh| sh.film_grain_params_present = true),
        Some(Error::ScanFilmGrain)
    );
    assert_eq!(
        scan(&key, &|sh| sh.frame_id_numbers_present = true),
        Some(Error::ScanFrameIds)
    );
    assert_eq!(scan(&[0x98], &|_| {}), Some(Error::ScanShowExisting));
    assert_eq!(scan(&key, &|_| {}), Some(Error::UnexpectedEnd));
}

#[test]
fn splice_no_insert_is_bit_and_tile_identical() {
    // header 10 bits spanning 2 bytes + 2 bytes of "tile" data
    let payload = vec![0b1010_1101, 0b0110_0011, 0xAB, 0xCD];
    let header_end = 10;
    let out = splice_header_bits(&payload, 5, header_end, &[]).unwrap();
    let mut ro = BitReader::new(&out);
    let mut ri = BitReader::new(&payload);
    for _ in 0..header_end {
        assert_eq!(ro.f(1).unwrap(), ri.f(1).unwrap());
    }
    // alignment of 10 bits + 1 => 11 → pads to 16
    assert_eq!(out.len(), 2 + 2);
    assert_eq!(&out[2..], &payload[2..]);
}

#[test]
fn splice_insert_shifts_tail() {
    let payload = vec![0b1010_1101, 0b0110_0011, 0xAB];
    let out = splice_header_bits(&payload, 5, 10, &[(1, 0)]).unwrap();
    let mut r = BitReader::new(&out);
    let mut ri = BitReader::new(&payload);
    for _ in 0..5 {
        assert_eq!(r.f(1).unwrap(), ri.f(1).unwrap());
    }
    assert_eq!(r.f(1).unwrap(), 0); // inserted bit
    for _ in 5..10 {
        assert_eq!(r.f(1).unwrap(), ri.f(1).unwrap());
    }
}

#[test]
fn splice_errors() {
    assert_eq!(splice_header_bits(&[0, 0], 9, 8, &[]), Err(Error::SplicePastHeader));
    assert_eq!(splice_header_bits(&[0, 0], 9, 17, &[]), Err(Error::HeaderPastPayload));
}

#[test]
fn slots_after_a_key_frame_hold_it() {
    let dpb = Dpb::after_key_frame(640, 360, 320, 180, 640);
    for s in &dpb.slots {
        assert!(s.is_key_frame);
        assert_eq!((s.frame_width, s.frame_height), (640, 360));
        assert_eq!((s.render_width, s.render_height), (320, 180));
        assert_eq!(s.upscaled_width, 640);
    }
}
