use gallery_sorter::mp4_meta::{
    choose_mp4_date, mp4_date, mvhd_to_unix, parse_ilst_string, parse_keys, parse_meta, parse_moov, parse_qt_date,
    parse_udta, read_box_header, read_mvhd_creation, toplevel_first, toplevel_next, BoxHeader, TopLevelStep,
    EPOCH_OFFSET_SECS, FOURCC_MOOV, FOURCC_MVHD, MAX_TOPLEVEL_WALK,
};
use gallery_sorter::types::{CivilDateTime, DateSource, LocalDateTime};

const KEY: &str = "com.apple.quicktime.creationdate";
const QT_DATE: &str = "2024-08-12T14:32:11-0700";

fn boxed(kind: &[u8; 4], payload: &[u8]) -> Vec<u8> {
    let mut v = ((payload.len() + 8) as u32).to_be_bytes().to_vec();
    v.extend_from_slice(kind);
    v.extend_from_slice(payload);
    v
}

fn mvhd_v0(secs: u32) -> Vec<u8> {
    let mut p = vec![0, 0, 0, 0];
    p.extend_from_slice(&secs.to_be_bytes());
    p.extend_from_slice(&[0; 8]);
    boxed(b"mvhd", &p)
}

fn keys_box(names: &[&str]) -> Vec<u8> {
    let mut p = vec![0, 0, 0, 0];
    p.extend_from_slice(&(names.len() as u32).to_be_bytes());
    for n in names {
        p.extend_from_slice(&((n.len() + 8) as u32).to_be_bytes());
        p.extend_from_slice(b"mdta");
        p.extend_from_slice(n.as_bytes());
    }
    boxed(b"keys", &p)
}

fn ilst_item(index: u32, text: &str) -> Vec<u8> {
    let mut data = vec![0, 0, 0, 1, 0, 0, 0, 0];
    data.extend_from_slice(text.as_bytes());
    let data_box = boxed(b"data", &data);
    let mut v = ((data_box.len() + 8) as u32).to_be_bytes().to_vec();
    v.extend_from_slice(&index.to_be_bytes());
    v.extend_from_slice(&data_box);
    v
}

fn meta_payload(fullbox: bool) -> Vec<u8> {
    let mut body = Vec::new();
    if fullbox {
        body.extend_from_slice(&[0, 0, 0, 0]);
    }
    body.extend(keys_box(&["com.apple.quicktime.make", KEY]));
    let mut ilst = ilst_item(1, "Apple");
    ilst.extend(ilst_item(2, QT_DATE));
    body.extend(boxed(b"ilst", &ilst));
    body
}

fn moov_payload() -> Vec<u8> {
    let mut p = mvhd_v0(3_660_681_600);
    p.extend(boxed(b"udta", &boxed(b"meta", &meta_payload(false))));
    p
}

#[test]
fn box_headers() {
    let d = boxed(b"moov", &[1, 2, 3]);
    assert_eq!(
        read_box_header(&d, 0),
        Ok(Some(BoxHeader { size: 11, kind: FOURCC_MOOV, header_len: 8 }))
    );
    assert_eq!(read_box_header(&d, 4), Ok(None));
    let mut large = vec![0, 0, 0, 1];
    large.extend_from_slice(b"mdat");
    large.extend_from_slice(&0x1_0000_0010u64.to_be_bytes());
    assert_eq!(
        read_box_header(&large, 0),
        Ok(Some(BoxHeader { size: 0x1_0000_0010, kind: 0x6d64_6174, header_len: 16 }))
    );
    assert_eq!(read_box_header(&large[..12], 0), Err(()));
    let to_end = [0, 0, 0, 0, b'f', b'r', b'e', b'e'];
    assert_eq!(read_box_header(&to_end, 0), Ok(Some(BoxHeader { size: 0, kind: 0x6672_6565, header_len: 8 })));
}

#[test]
fn mvhd_creation_times() {
    let v0 = [0, 0, 0, 0, 0x12, 0x34, 0x56, 0x78];
    assert_eq!(read_mvhd_creation(&v0, 0), Ok(0x1234_5678));
    let v1 = [1, 0, 0, 0, 0, 0, 0, 1, 0, 0, 0, 2];
    assert_eq!(read_mvhd_creation(&v1, 0), Ok(0x1_0000_0002));
    assert_eq!(read_mvhd_creation(&v1[..8], 0), Err(()));
    assert_eq!(mvhd_to_unix(3_660_681_600), 1_577_836_800);
    assert_eq!(mvhd_to_unix(0), -EPOCH_OFFSET_SECS);
}

#[test]
fn keys_and_items() {
    let k = keys_box(&["a.b", KEY]);
    assert_eq!(parse_keys(&k, 8, (k.len() - 8) as u64), Ok(vec!["a.b".to_string(), KEY.to_string()]));
    let mut items = ilst_item(1, "first");
    items.extend(ilst_item(2, "second"));
    assert_eq!(parse_ilst_string(&items, 0, items.len() as u64, 2), Ok(Some("second".to_string())));
    assert_eq!(parse_ilst_string(&items, 0, items.len() as u64, 3), Ok(None));
}

#[test]
fn meta_in_both_layouts() {
    for fullbox in [false, true] {
        let m = meta_payload(fullbox);
        assert_eq!(parse_meta(&m, 0, m.len() as u64), Ok(Some(QT_DATE.to_string())));
    }
    let u = boxed(b"meta", &meta_payload(true));
    assert_eq!(parse_udta(&u, 0, u.len() as u64), Ok(Some(QT_DATE.to_string())));
    let no_keys = boxed(b"ilst", &ilst_item(1, QT_DATE));
    assert_eq!(parse_meta(&no_keys, 0, no_keys.len() as u64), Ok(None));
}

#[test]
fn moov_yields_both_dates() {
    let p = moov_payload();
    assert_eq!(parse_moov(&p, p.len() as u64), Ok((Some(3_660_681_600), Some(QT_DATE.to_string()))));
    let only_mvhd = mvhd_v0(5);
    assert_eq!(parse_moov(&only_mvhd, only_mvhd.len() as u64), Ok((Some(5), None)));
    assert_eq!(parse_moov(&[], 0), Ok((None, None)));
}

#[test]
fn top_level_walk() {
    assert_eq!(toplevel_first(0), TopLevelStep::Finished);
    assert_eq!(toplevel_first(100), TopLevelStep::ReadHeaderAt(0));
    let ftyp = Ok(Some(BoxHeader { size: 24, kind: 0x6674_7970, header_len: 8 }));
    assert_eq!(toplevel_next(0, 1000, ftyp), TopLevelStep::ReadHeaderAt(24));
    let moov = Ok(Some(BoxHeader { size: 100, kind: FOURCC_MOOV, header_len: 8 }));
    assert_eq!(toplevel_next(24, 1000, moov), TopLevelStep::ParseMoov { payload_start: 32, payload_len: 92 });
    let cut = Ok(Some(BoxHeader { size: 5000, kind: FOURCC_MOOV, header_len: 8 }));
    assert_eq!(toplevel_next(24, 1000, cut), TopLevelStep::ParseMoov { payload_start: 32, payload_len: 968 });
    let to_end = Ok(Some(BoxHeader { size: 0, kind: FOURCC_MVHD, header_len: 8 }));
    assert_eq!(toplevel_next(0, 1000, to_end), TopLevelStep::Finished);
    assert_eq!(toplevel_next(0, 1000, Ok(None)), TopLevelStep::Finished);
    assert_eq!(toplevel_next(0, 1000, Err(())), TopLevelStep::Finished);
    let past_budget = Ok(Some(BoxHeader { size: MAX_TOPLEVEL_WALK, kind: 0x6d64_6174, header_len: 8 }));
    assert_eq!(toplevel_next(0, MAX_TOPLEVEL_WALK + 10, past_budget), TopLevelStep::Finished);
}

#[test]
fn quicktime_dates() {
    assert_eq!(parse_qt_date(QT_DATE), Some((1_723_498_331, 0)));
    assert_eq!(parse_qt_date(" 2024-08-12T21:32:11Z "), Some((1_723_498_331, 0)));
    assert_eq!(parse_qt_date("2024-08-12T21:32:11.5+00:00"), Some((1_723_498_331, 500_000_000)));
    assert_eq!(parse_qt_date(""), None);
    assert_eq!(parse_qt_date("yesterday"), None);
}

#[test]
fn quicktime_date_wins_over_mvhd() {
    let (t, src) = mp4_date(Some(3_660_681_600), Some(QT_DATE)).unwrap();
    assert_eq!(src, DateSource::QuickTime);
    assert_eq!(t.timestamp, 1_723_498_331);
    let (t, src) = mp4_date(Some(3_660_681_600), Some("garbage")).unwrap();
    assert_eq!(src, DateSource::Mp4Box);
    assert_eq!(t.timestamp, 1_577_836_800);
    assert!(mp4_date(None, None).is_none());
    assert!(mp4_date(None, Some("garbage")).is_none());
}

#[test]
fn choice_between_readings() {
    let a = LocalDateTime {
        local: CivilDateTime { year: 2020, month: 1, day: 1, hour: 0, minute: 0, second: 0, nanosecond: 0 },
        timestamp: 1,
    };
    let b = LocalDateTime { timestamp: 2, ..a };
    assert_eq!(choose_mp4_date(Some(a), Some(b)), Some((a, DateSource::QuickTime)));
    assert_eq!(choose_mp4_date(None, Some(b)), Some((b, DateSource::Mp4Box)));
    assert_eq!(choose_mp4_date(None, None), None);
}

#[test]
fn lengths_shorter_than_their_headers_are_malformed() {
    let tiny_moov = Ok(Some(BoxHeader { size: 4, kind: FOURCC_MOOV, header_len: 8 }));
    assert_eq!(toplevel_next(0, 1000, tiny_moov), TopLevelStep::Finished);
    let at_end = Ok(Some(BoxHeader { size: 100, kind: FOURCC_MOOV, header_len: 16 }));
    assert_eq!(toplevel_next(990, 1000, at_end), TopLevelStep::Finished);
    let prefixed = [0u8; 12];
    assert_eq!(parse_meta(&prefixed, 0, 3), Ok(None));
}
