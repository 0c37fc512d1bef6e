use ptl::devices::{find_device, tape_mm_to_px, DeviceFlags, FLAG_P700_INIT, FLAG_PLITE, FLAG_RASTER_PACKBITS};
use ptl::error::PtlError;
use ptl::protocol::PrinterStatus;
use ptl::raster::{bitmap_to_raster_lines, RasterLine};
use ptl::session::{chunk_message, next_status_step, print_job, select_device, tape_width_for, StatusPoll, StatusRead};

#[test]
fn tape_widths_map_to_pixels() {
    assert_eq!(tape_mm_to_px(6), Some(32));
    assert_eq!(tape_mm_to_px(9), Some(52));
    assert_eq!(tape_mm_to_px(12), Some(76));
    assert_eq!(tape_mm_to_px(18), Some(120));
    assert_eq!(tape_mm_to_px(24), Some(128));
    assert_eq!(tape_mm_to_px(36), Some(192));
    assert_eq!(tape_mm_to_px(7), None);
    assert_eq!(tape_mm_to_px(0), None);
}

#[test]
fn find_known_and_unknown_devices() {
    let d = find_device(0x04f9, 0x2062).unwrap();
    assert_eq!(d.name, "PT-P750W");
    assert_eq!(d.max_px, 128);
    assert_eq!(d.dpi, 180);
    assert!(d.flags.contains(DeviceFlags::raster_packbits()));
    assert!(d.flags.contains(DeviceFlags::p700_init()));
    let e500 = find_device(0x04f9, 0x205f).unwrap();
    assert_eq!(e500.name, "PT-E500");
    assert_eq!(e500.pre_print_padding_px, 48);
    let plite = find_device(0x04f9, 0x2030).unwrap();
    assert!(plite.flags.contains(DeviceFlags::plite()));
    assert!(find_device(0x04f9, 0x9999).is_none());
    assert!(find_device(0x1234, 0x2062).is_none());
}

#[test]
fn device_flags_union_and_contains() {
    let f = DeviceFlags::raster_packbits().union(DeviceFlags::p700_init());
    assert_eq!(f.bits, FLAG_RASTER_PACKBITS | FLAG_P700_INIT);
    assert!(f.contains(DeviceFlags::p700_init()));
    assert!(!f.contains(DeviceFlags::plite()));
    assert!(f.contains(DeviceFlags::empty()));
    assert_eq!(DeviceFlags::plite().bits, FLAG_PLITE);
}

#[test]
fn select_device_prefers_requested_and_refuses_plite() {
    // A non-Brother device, a PT-D450 and a PT-P750W on the bus.
    let found = [(0x1111, 0x2222), (0x04f9, 0x2073), (0x04f9, 0x2062)];
    let (i, info) = select_device(&found, None).unwrap();
    assert_eq!(i, 1);
    assert_eq!(info.name, "PT-D450");
    let (i, info) = select_device(&found, Some((0x04f9, 0x2062))).unwrap();
    assert_eq!(i, 2);
    assert_eq!(info.name, "PT-P750W");
    assert!(matches!(select_device(&found, Some((0x04f9, 0x2061))), Err(PtlError::NoPrinterFound)));
    assert!(matches!(select_device(&[(0x1111, 0x2222)], None), Err(PtlError::NoPrinterFound)));
    assert!(matches!(select_device(&[], None), Err(PtlError::NoPrinterFound)));
    let with_plite = [(0x04f9, 0x2062), (0x04f9, 0x2065)];
    assert!(matches!(select_device(&with_plite, None), Err(PtlError::PliteMode)));
}

fn status_reply() -> [u8; 32] {
    let mut buf = [0u8; 32];
    buf[0] = 0x80;
    buf[1] = 0x20;
    buf[2] = b'B';
    buf[8] = 0x34;
    buf[9] = 0x12;
    buf[10] = 24;
    buf[11] = 0x01;
    buf[15] = 0x02;
    buf[18] = 0x03;
    buf[19] = 0x04;
    buf[24] = 0x23;
    buf[25] = 0x0a;
    buf
}

#[test]
fn status_from_bytes_reads_fields() {
    let s = PrinterStatus::from_bytes(&status_reply()).unwrap();
    assert_eq!(s.error, 0x1234);
    assert_eq!(s.media_width_mm, 24);
    assert_eq!(s.media_type, 1);
    assert_eq!(s.mode, 2);
    assert_eq!(s.status_type, 3);
    assert_eq!(s.phase_type, 4);
    assert_eq!(s.tape_color, 0x23);
    assert_eq!(s.text_color, 0x0a);
    assert_eq!(s.tape_color_name(), "satin gold");
    assert_eq!(s.text_color_name(), "gold");
    assert_eq!(s.media_type_name(), "laminated tape");
    assert_eq!(tape_width_for(&s).unwrap(), 128);
}

#[test]
fn status_from_bytes_rejects_bad_header() {
    for k in 0..3 {
        let mut buf = status_reply();
        buf[k] ^= 0xff;
        assert!(PrinterStatus::from_bytes(&buf).is_none());
    }
}

#[test]
fn colour_and_media_names() {
    let mut s = PrinterStatus::default();
    s.tape_color = 0x01;
    assert_eq!(s.tape_color_name(), "white");
    s.tape_color = 0x09;
    assert_eq!(s.tape_color_name(), "clear (white text)");
    s.tape_color = 0xf1;
    assert_eq!(s.tape_color_name(), "stencil");
    s.tape_color = 0x55;
    assert_eq!(s.tape_color_name(), "unknown");
    s.text_color = 0x08;
    assert_eq!(s.text_color_name(), "black");
    s.text_color = 0x02;
    assert_eq!(s.text_color_name(), "unknown");
    s.media_type = 0x00;
    assert_eq!(s.media_type_name(), "no media");
    s.media_type = 0x11;
    assert_eq!(s.media_type_name(), "heat-shrink tube");
    s.media_type = 0xff;
    assert_eq!(s.media_type_name(), "incompatible");
    s.media_type = 0x02;
    assert_eq!(s.media_type_name(), "unknown");
}

#[test]
fn unknown_tape_width_is_an_error() {
    let mut s = PrinterStatus::default();
    s.media_width_mm = 10;
    assert!(matches!(tape_width_for(&s), Err(PtlError::UnknownTapeWidth(10))));
}

#[test]
fn status_poll_retries_then_times_out() {
    let good = StatusRead::Bytes { len: 32, buf: status_reply() };
    assert!(matches!(next_status_step(0, &good), StatusPoll::Done(s) if s.media_width_mm == 24));
    let short = StatusRead::Bytes { len: 16, buf: status_reply() };
    assert!(matches!(next_status_step(0, &short), StatusPoll::Retry(1)));
    let mut bad = status_reply();
    bad[2] = b'C';
    assert!(matches!(next_status_step(3, &StatusRead::Bytes { len: 32, buf: bad }), StatusPoll::Retry(4)));
    assert!(matches!(next_status_step(8, &StatusRead::Failed), StatusPoll::Retry(9)));
    assert!(matches!(next_status_step(9, &StatusRead::Failed), StatusPoll::TimedOut));
}

#[test]
fn raster_line_bit_layout() {
    let mut l = RasterLine::new();
    assert_eq!(l.encode_standard(), {
        let mut v = vec![0x47, 16, 0];
        v.extend_from_slice(&[0u8; 16]);
        v
    });
    l.set_pixel(0); // byte 15, bit 0
    l.set_pixel(9); // byte 14, bit 1
    l.set_pixel(127); // byte 0, bit 7
    l.set_pixel(128); // ignored
    l.set_pixel(5000); // ignored
    let enc = l.encode_standard();
    assert_eq!(enc.len(), 19);
    assert_eq!(&enc[..3], &[0x47, 16, 0]);
    let mut bytes = [0u8; 16];
    bytes[15] = 0x01;
    bytes[14] = 0x02;
    bytes[0] = 0x80;
    assert_eq!(&enc[3..], &bytes);
    let pb = l.encode_packbits();
    assert_eq!(pb.len(), 20);
    assert_eq!(&pb[..4], &[0x47, 17, 0, 15]);
    assert_eq!(&pb[4..], &bytes);
    assert_eq!(RasterLine::encode_empty(), &[0x5A]);
}

#[test]
fn raster_lines_are_centered_and_mirrored() {
    // 2 columns x 4 rows; column 0 has ink on row 0 (top), column 1 on row 3.
    let w = 2u32;
    let h = 4u32;
    let mut px = vec![0u8; 8];
    px[0 * 2 + 0] = 255;
    px[3 * 2 + 1] = 255;
    let lines = bitmap_to_raster_lines(&px, w, h, 128);
    assert_eq!(lines.len(), 2);
    // offset = 64 - 2 = 62; row r goes to raster pixel 62 + (h - 1 - r).
    let mut expect0 = RasterLine::new();
    expect0.set_pixel(62 + 3);
    let mut expect1 = RasterLine::new();
    expect1.set_pixel(62);
    assert_eq!(lines[0].encode_standard(), expect0.encode_standard());
    assert_eq!(lines[1].encode_standard(), expect1.encode_standard());
}

#[test]
fn raster_lines_clip_tall_bitmaps() {
    // 200 rows on a 128-pixel raster: offset saturates at 0, rows beyond 127 drop.
    let h = 200u32;
    let px = vec![255u8; h as usize];
    let lines = bitmap_to_raster_lines(&px, 1, h, 128);
    let enc = lines[0].encode_standard();
    assert!(enc[3..].iter().all(|&b| b == 0xff));
    assert!(bitmap_to_raster_lines(&[], 0, 5, 128).is_empty());
}

#[test]
fn chunks_split_messages_at_128_bytes() {
    let data: Vec<u8> = (0..300u32).map(|i| (i % 251) as u8).collect();
    let chunks = chunk_message(&data);
    assert_eq!(chunks.len(), 3);
    assert_eq!(chunks[0].len(), 128);
    assert_eq!(chunks[1].len(), 128);
    assert_eq!(chunks[2].len(), 44);
    assert_eq!(chunks.concat(), data);
    assert!(chunk_message(&[]).is_empty());
    assert_eq!(chunk_message(&[1u8; 128]).len(), 1);
    assert_eq!(chunk_message(&[1u8; 129]).len(), 2);
}

#[test]
fn print_job_for_packbits_p700_model() {
    let info = find_device(0x04f9, 0x2062).unwrap();
    let px = vec![255u8, 0, 0, 255];
    let job = print_job(&info, &px, 2, 2);
    assert_eq!(job.len(), 2 + 2 + 1);
    assert_eq!(job[0], vec![0x1B, 0x69, 0x61, 0x01]);
    assert_eq!(job[1], vec![0x4D, 0x02]);
    assert_eq!(job[2].len(), 20);
    assert_eq!(&job[2][..4], &[0x47, 17, 0, 15]);
    assert_eq!(job[4], vec![0x1A]);
}

#[test]
fn print_job_for_padded_standard_model() {
    let info = find_device(0x04f9, 0x2041).unwrap(); // PT-2730: standard, 48 blank lines
    let px = vec![255u8; 3];
    let job = print_job(&info, &px, 3, 1);
    assert_eq!(job.len(), 1 + 48 + 3 + 1);
    assert_eq!(job[0], vec![0x1B, 0x69, 0x52, 0x01]);
    assert!(job[1..49].iter().all(|m| m == &vec![0x5A]));
    for col in &job[49..52] {
        assert_eq!(col.len(), 19);
        assert_eq!(&col[..3], &[0x47, 16, 0]);
    }
    assert_eq!(job[52], vec![0x1A]);
}

#[test]
fn readme_supported_devices() {
    let table = [
        (0x2007, "PT-2420PC"),
        (0x202c, "PT-1230PC"),
        (0x202d, "PT-2430PC"),
        (0x2041, "PT-2730"),
        (0x205f, "PT-E500"),
        (0x2061, "PT-P700"),
        (0x2062, "PT-P750W"),
        (0x2073, "PT-D450"),
        (0x2074, "PT-D600"),
    ];
    for (pid, name) in table {
        let found = [(0x04f9u16, pid)];
        let (i, info) = select_device(&found, None).unwrap();
        assert_eq!(i, 0);
        assert_eq!(info.name, name);
    }
    for pid in [0x2030u16, 0x2031, 0x2064, 0x2065] {
        assert!(matches!(select_device(&[(0x04f9, pid)], None), Err(PtlError::PliteMode)));
    }
    assert_eq!(ptl::devices::devices().len(), 13);
}
