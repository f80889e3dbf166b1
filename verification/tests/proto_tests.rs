use proto::session::split_path;
use proto::{
    read_le_u16, read_le_u32, read_le_u64, read_le_u8, read_string, take, Fcall, File, Header,
    HeaderType, Message, Mode, Qid, RAttach, RClunk, RError, ROpen, RRead, RWalk, Session,
    TAttach, TClunk, TOpen, TRVersion, TRead, TWalk, IOUNIT,
};

fn hdr(t: HeaderType, tag: u16) -> Header {
    Header { htype: Some(t), htag: tag }
}

#[test]
fn it_works() {
    assert_eq!(2 + 2, 4);
}

#[test]
fn readers_take_little_endian_values() {
    let bytes = [1u8, 2, 3, 4, 5, 6, 7, 8, 9, 10, 11, 12, 13, 14, 15];
    let mut b: &[u8] = &bytes;
    assert_eq!(read_le_u8(&mut b), 1);
    assert_eq!(read_le_u16(&mut b), 0x0302);
    assert_eq!(read_le_u32(&mut b), 0x07060504);
    assert_eq!(read_le_u64(&mut b), 0x0f0e0d0c0b0a0908);
    assert_eq!(b.len(), 0);
}

#[test]
fn read_string_reads_length_prefixed_utf8() {
    let bytes = [3u8, 0, b'a', b'b', b'c', 9];
    let mut b: &[u8] = &bytes;
    assert_eq!(read_string(&mut b), Some("abc".to_string()));
    assert_eq!(b, &[9u8][..]);
}

#[test]
fn read_string_rejects_short_and_invalid_input() {
    let short = [5u8, 0, b'a'];
    let mut b: &[u8] = &short;
    assert_eq!(read_string(&mut b), None);
    assert_eq!(b.len(), 3);
    let invalid = [2u8, 0, 0xff, 0xfe];
    let mut b: &[u8] = &invalid;
    assert_eq!(read_string(&mut b), None);
    assert_eq!(b.len(), 4);
    let tiny = [1u8];
    let mut b: &[u8] = &tiny;
    assert_eq!(read_string(&mut b), None);
}

#[test]
fn header_type_numbers() {
    assert_eq!(HeaderType::Tversion.code(), 100);
    assert_eq!(HeaderType::Rwstat.code(), 127);
    assert_eq!(HeaderType::Tclunk.code(), 120);
    assert_eq!(HeaderType::try_from(111), Ok(HeaderType::Rwalk));
    for v in 100u8..=127 {
        assert_eq!(HeaderType::try_from(v).unwrap().code(), v);
    }
}

#[test]
fn header_type_errors_name_the_value() {
    assert_eq!(HeaderType::try_from(99), Err("Invalie headertype: 99".to_string()));
    assert_eq!(HeaderType::try_from(128), Err("Invalie headertype: 128".to_string()));
    assert_eq!(HeaderType::try_from(0), Err("Invalie headertype: 0".to_string()));
    assert_eq!(HeaderType::try_from(255), Err("Invalie headertype: 255".to_string()));
}

#[test]
fn mode_numbers_and_errors() {
    assert_eq!(Mode::Oread.code(), 0);
    assert_eq!(Mode::Onone.code(), 4);
    assert_eq!(Mode::Otrunc.code(), 0x10);
    assert_eq!(Mode::Orclose.code(), 0x40);
    assert_eq!(Mode::try_from(2), Ok(Mode::Ordwr));
    assert_eq!(Mode::try_from(0x40), Ok(Mode::Orclose));
    assert_eq!(
        Mode::try_from(5),
        Err("Protocol Error: UnSupported mode value".to_string())
    );
    assert_eq!(Mode::default(), Mode::Oread);
    assert_eq!(IOUNIT, 16384);
}

#[test]
fn header_parse_and_compose() {
    let bytes = [104u8, 0x34, 0x12, 0xaa];
    let mut b: &[u8] = &bytes;
    let mut h = Header::default();
    assert_eq!(h.htype, None);
    assert_eq!(h.htag, 0);
    h.parse(&mut b);
    assert_eq!(h.htype, Some(HeaderType::Tattach));
    assert_eq!(h.get_tag(), 0x1234);
    assert_eq!(b, &[0xaau8][..]);
    assert_eq!(h.compose(), Some(vec![0u8]));
    let mut b: &[u8] = &[99u8, 0, 0];
    assert!(Header::decode(&mut b).is_none());
    let mut b: &[u8] = &[100u8, 0];
    assert!(Header::decode(&mut b).is_none());
}

#[test]
fn qid_compose_and_parse() {
    let q = Qid { qtype: 0x80, vers: 0x01020304, uid: 0x1122334455667788 };
    let b = q.compose().unwrap();
    assert_eq!(
        b,
        vec![0x80, 4, 3, 2, 1, 0x88, 0x77, 0x66, 0x55, 0x44, 0x33, 0x22, 0x11]
    );
    let mut q2 = Qid::default();
    let mut s: &[u8] = &b;
    q2.parse(&mut s);
    assert_eq!((q2.qtype, q2.vers, q2.uid), (0x80, 0x01020304, 0x1122334455667788));
    assert!(s.is_empty());
}

#[test]
fn version_roundtrip() {
    let v = TRVersion { header: hdr(HeaderType::Tversion, 0), msize: 65536, version: "9P2000".to_string() };
    let b = v.compose().unwrap();
    assert_eq!(b.len(), 19);
    assert_eq!(&b[..4], &[19u8, 0, 0, 0]);
    assert_eq!(b[4], 100);
    assert_eq!(&b[11..13], &[6u8, 0]);
    assert_eq!(&b[13..], b"9P2000");
    let mut p = TRVersion::default();
    let mut s: &[u8] = &b[4..];
    p.parse(&mut s);
    assert_eq!(p.header.htype, Some(HeaderType::Tversion));
    assert_eq!(p.msize, 65536);
    assert_eq!(p.version, "9P2000");
    assert!(s.is_empty());
}

#[test]
fn attach_compose_and_parse() {
    let a = TAttach {
        header: hdr(HeaderType::Tattach, 3),
        fid: 0,
        afid: !0u32,
        uname: "kyle".to_string(),
        aname: "".to_string(),
    };
    let b = a.compose().unwrap();
    assert_eq!(b.len(), 4 + 1 + 2 + 4 + 4 + 2 + 4 + 2);
    assert_eq!(&b[..4], &[23u8, 0, 0, 0]);
    let mut p = TAttach::default();
    let mut s: &[u8] = &b[4..];
    p.parse(&mut s);
    assert!(s.is_empty());
    assert_eq!(p.fid, 0);
    assert_eq!(p.afid, u32::MAX);
    assert_eq!(p.uname, "kyle");
    assert_eq!(p.aname, "");
    assert_eq!(p.get_tag(), 3);
    assert_eq!(p.header.htype, Some(HeaderType::Tattach));
}

#[test]
fn rattach_parse_reads_qid() {
    let q = Qid { qtype: 1, vers: 2, uid: 3 };
    let mut b = vec![105u8, 4, 0];
    b.extend(q.compose().unwrap());
    let r = RAttach::from_bytes(b);
    assert_eq!((r.qid.qtype, r.qid.vers, r.qid.uid), (1, 2, 3));
    assert_eq!(r.header.htype, Some(HeaderType::Rattach));
    assert_eq!(r.get_tag(), 4);
}

#[test]
fn clunk_compose_bytes() {
    let m = TClunk { header: hdr(HeaderType::Tclunk, 7), fid: 0x01020304 };
    let b = m.compose().unwrap();
    assert_eq!(b, vec![11, 0, 0, 0, 120, 7, 0, 4, 3, 2, 1]);
    let r = RClunk { header: hdr(HeaderType::Rclunk, 7) };
    assert_eq!(r.compose().unwrap(), vec![7, 0, 0, 0, 121, 7, 0]);
    let parsed = RClunk::from_bytes(vec![121, 7, 0]);
    assert_eq!(parsed.header.htype, Some(HeaderType::Rclunk));
    assert_eq!(parsed.get_tag(), 7);
}

#[test]
fn error_compose_and_parse() {
    let e = RError { header: hdr(HeaderType::Rerror, 2), ename: "no such file".to_string() };
    let b = e.compose().unwrap();
    assert_eq!(b.len(), 9 + 12);
    assert_eq!(&b[..4], &[21u8, 0, 0, 0]);
    assert_eq!(&b[4..9], &[107u8, 2, 0, 12, 0]);
    let p = RError::from_bytes(b[4..].to_vec());
    assert_eq!(p.ename, "no such file");
    assert_eq!(p.header.htype, Some(HeaderType::Rerror));
    assert_eq!(p.get_tag(), 2);
}

#[test]
fn open_compose_and_parse() {
    let o = TOpen { header: hdr(HeaderType::Topen, 4), fid: 9, mode: Mode::Otrunc };
    let b = o.compose().unwrap();
    assert_eq!(b, vec![12, 0, 0, 0, 112, 4, 0, 9, 0, 0, 0, 0x10]);
    let mut p = TOpen::default();
    let mut s: &[u8] = &b[4..];
    p.parse(&mut s);
    assert_eq!((p.fid, p.mode, p.get_tag()), (9, Mode::Otrunc, 4));
    let mut bad: &[u8] = &[112u8, 4, 0, 9, 0, 0, 0, 7];
    assert!(TOpen::decode(&mut bad).is_none());
    let r = ROpen {
        header: hdr(HeaderType::Ropen, 4),
        qid: Qid { qtype: 0, vers: 1, uid: 2 },
        iounit: 8192,
    };
    let b = r.compose().unwrap();
    assert_eq!(b.len(), 24);
    assert_eq!(&b[..4], &[24u8, 0, 0, 0]);
    let mut p = ROpen::default();
    let mut s: &[u8] = &b[4..];
    p.parse(&mut s);
    assert_eq!((p.qid.vers, p.qid.uid, p.iounit), (1, 2, 8192));
}

#[test]
fn read_compose_and_parse() {
    let t = TRead { header: hdr(HeaderType::Tread, 5), fid: 1, offset: 0x100, count: 50 };
    let b = t.compose().unwrap();
    assert_eq!(b.len(), 23);
    assert_eq!(&b[..4], &[23u8, 0, 0, 0]);
    let mut p = TRead::default();
    let mut s: &[u8] = &b[4..];
    p.parse(&mut s);
    assert_eq!((p.fid, p.offset, p.count), (1, 0x100, 50));
    let r = RRead { header: hdr(HeaderType::Rread, 5), count: 3, data: vec![7, 8, 9] };
    let b = r.compose().unwrap();
    assert_eq!(b, vec![14, 0, 0, 0, 117, 5, 0, 3, 0, 0, 0, 7, 8, 9]);
    let mut p = RRead::default();
    let mut s: &[u8] = &b[4..];
    p.parse(&mut s);
    assert_eq!((p.count, p.data.clone()), (3, vec![7u8, 8, 9]));
    assert_eq!(s.len(), 3);
}

#[test]
fn rread_size_wraps_past_32_bits() {
    let r = RRead { header: hdr(HeaderType::Rread, 1), count: u32::MAX, data: vec![] };
    let b = r.compose().unwrap();
    assert_eq!(&b[..4], &10u32.to_le_bytes());
}

#[test]
fn walk_roundtrip() {
    let w = TWalk {
        header: hdr(HeaderType::Twalk, 6),
        fid: 1,
        newfid: 2,
        nwname: 2,
        wname: vec!["usr".to_string(), "glenda".to_string()],
    };
    let b = w.compose().unwrap();
    assert_eq!(b.len(), 17 + 5 + 8);
    assert_eq!(&b[..4], &[30u8, 0, 0, 0]);
    let mut p = TWalk::default();
    let mut s: &[u8] = &b[4..];
    p.parse(&mut s);
    assert_eq!((p.fid, p.newfid, p.nwname), (1, 2, 2));
    assert_eq!(p.wname, vec!["usr".to_string(), "glenda".to_string()]);
    assert!(s.is_empty());
}

#[test]
fn rwalk_compose_writes_the_qids_and_parse_reads_them() {
    let r = RWalk {
        header: hdr(HeaderType::Rwalk, 1),
        nwqid: 1,
        wqid: vec![Qid { qtype: 0x80, vers: 0, uid: 5 }],
    };
    let b = r.compose().unwrap();
    assert_eq!(
        b,
        vec![22, 0, 0, 0, 111, 1, 0, 1, 0, 0x80, 0, 0, 0, 0, 5, 0, 0, 0, 0, 0, 0, 0]
    );
    let mut p = RWalk::default();
    let mut s: &[u8] = &b[4..];
    p.parse(&mut s);
    assert!(s.is_empty());
    assert_eq!((p.nwqid, p.wqid.len(), p.get_tag()), (1, 1, 1));
    assert_eq!((p.wqid[0].qtype, p.wqid[0].uid), (0x80, 5));
    let mut bytes = vec![111u8, 6, 0, 1, 0];
    bytes.extend(Qid { qtype: 1, vers: 2, uid: 3 }.compose().unwrap());
    let p = RWalk::from_bytes(bytes);
    assert_eq!(p.nwqid, 1);
    assert_eq!(p.wqid.len(), 1);
    assert_eq!((p.wqid[0].qtype, p.wqid[0].vers, p.wqid[0].uid), (1, 2, 3));
    let mut short: &[u8] = &[111u8, 6, 0, 1, 0, 0];
    assert!(RWalk::decode(&mut short).is_none());
}

#[test]
fn message_new_dispatches_on_kind() {
    let mut v = vec![101u8, 0, 0, 0, 0x20, 0, 0, 6, 0];
    v.extend(b"9P2000");
    match Message::new(HeaderType::Tversion, v) {
        Message::RVersion(x) => {
            assert_eq!(x.msize, 0x2000);
            assert_eq!(x.version, "9P2000");
        }
        _ => panic!("expected an Rversion"),
    }
    match Message::new(HeaderType::Rclunk, vec![121, 3, 0]) {
        Message::RClunk(x) => assert_eq!(x.get_tag(), 3),
        _ => panic!("expected an Rclunk"),
    }
    match Message::new(HeaderType::Rerror, vec![107, 1, 0, 3, 0, 98, 97, 100]) {
        Message::RError(e) => {
            assert_eq!(e.header.htag, 1);
            assert_eq!(e.ename, "bad");
        }
        _ => panic!("expected an Rerror"),
    }
    let a = TAttach {
        header: hdr(HeaderType::Tattach, 5),
        fid: 1,
        afid: !0u32,
        uname: "u".to_string(),
        aname: "".to_string(),
    };
    let b = a.compose().unwrap();
    match Message::new(HeaderType::Tattach, b[4..].to_vec()) {
        Message::TAttach(x) => {
            assert_eq!((x.fid, x.afid, x.get_tag()), (1, u32::MAX, 5));
            assert_eq!(x.uname, "u");
        }
        _ => panic!("expected a Tattach"),
    }
    let o = ROpen { header: hdr(HeaderType::Ropen, 2), qid: Qid::default(), iounit: 77 };
    let b = o.compose().unwrap();
    match Message::new(HeaderType::Ropen, b[4..].to_vec()) {
        Message::ROpen(x) => assert_eq!(x.iounit, 77),
        _ => panic!("expected an Ropen"),
    }
    match Message::new(HeaderType::Rread, vec![117, 2, 0, 2, 0, 0, 0, 4, 5]) {
        Message::RRead(x) => assert_eq!((x.count, x.data.clone()), (2, vec![4u8, 5])),
        _ => panic!("expected an Rread"),
    }
}

#[test]
fn message_accepts_exactly_what_new_takes() {
    assert!(Message::accepts(HeaderType::Rclunk, &[121, 3, 0]));
    assert!(!Message::accepts(HeaderType::Rclunk, &[121, 3]));
    assert!(!Message::accepts(HeaderType::Ropen, &[113, 3, 0]));
    assert!(!Message::accepts(HeaderType::Topen, &[112, 3, 0, 0, 0, 0, 0, 0]));
    assert!(!Message::accepts(HeaderType::Tversion, &[120, 0, 0, 0, 0, 0, 0, 0, 0]));
    assert!(Message::accepts(HeaderType::Rerror, &[107, 0, 0, 0, 0]));
    assert!(!Message::accepts(HeaderType::Rerror, &[0, 0]));
}

#[test]
fn message_from_kinds() {
    match Message::from(TClunk { header: Header::default(), fid: 3 }) {
        Message::TClunk(c) => assert_eq!(c.fid, 3),
        _ => panic!("expected a Tclunk"),
    }
    let v = TRVersion { header: hdr(HeaderType::Tversion, 0), msize: 1, version: String::new() };
    assert!(matches!(Message::from_version(v), Message::TVersion(_)));
}

#[test]
fn take_prefers_the_pool() {
    let mut pool: Vec<u32> = vec![5, 9];
    let mut last: u32 = 3;
    assert_eq!(take(&mut pool, &mut last, 1), 9);
    assert_eq!(pool, vec![5]);
    assert_eq!(last, 3);
    assert_eq!(take(&mut pool, &mut last, 1), 5);
    assert_eq!(take(&mut pool, &mut last, 1), 4);
    assert_eq!(last, 4);
    let mut tags: Vec<u16> = vec![];
    let mut lt: u16 = 1;
    assert_eq!(take(&mut tags, &mut lt, 2), 3);
}

#[test]
fn session_hands_out_and_recycles_ids() {
    let mut s = Session::new();
    assert_eq!(s.take_tag(), 2);
    assert_eq!(s.take_tag(), 3);
    s.return_tag(2);
    s.return_tag(0);
    assert_eq!(s.tags, vec![2]);
    assert_eq!(s.take_tag(), 2);
    assert_eq!(s.take_fid(), 1);
    s.return_fid(1);
    assert_eq!(s.take_fid(), 1);
    assert_eq!(s.take_fid(), 2);
}

#[test]
fn split_path_keeps_nonempty_components() {
    assert_eq!(split_path("/static"), vec!["static".to_string()]);
    assert_eq!(split_path("a//b/"), vec!["a".to_string(), "b".to_string()]);
    assert_eq!(split_path(""), Vec::<String>::new());
    assert_eq!(split_path("///"), Vec::<String>::new());
    assert_eq!(split_path("é/ü"), vec!["é".to_string(), "ü".to_string()]);
}

#[test]
fn walk_request_builds_the_twalk() {
    let mut s = Session::new();
    let (w, newfid) = s.walk_request("/usr/glenda");
    assert_eq!(newfid, 1);
    assert_eq!(w.header.htype, Some(HeaderType::Twalk));
    assert_eq!(w.get_tag(), 2);
    assert_eq!((w.fid, w.newfid, w.nwname), (0, 1, 2));
    assert_eq!(w.wname, vec!["usr".to_string(), "glenda".to_string()]);
}

#[test]
fn clunk_and_open_requests() {
    let mut s = Session::new();
    assert!(s.clunk_request(0).is_none());
    let c = s.clunk_request(4).unwrap();
    assert_eq!((c.fid, c.header.htag, c.header.htype), (4, 2, Some(HeaderType::Tclunk)));
    assert_eq!(c.compose().unwrap(), vec![11, 0, 0, 0, 120, 2, 0, 4, 0, 0, 0]);
    let o = s.open_request(4, Mode::Oread);
    assert_eq!((o.fid, o.mode, o.header.htag), (4, Mode::Oread, 3));
    assert_eq!(o.header.htype, Some(HeaderType::Topen));
}

#[test]
fn file_reads_are_bounded() {
    let mut s = Session::new();
    s.msize = 8192;
    let f = File::opened(3, 0);
    assert_eq!(f.iounit, u32::MAX);
    let r = f.read_request(&mut s, 100_000);
    assert_eq!(r.count, 8192 - 11);
    assert_eq!((r.fid, r.offset), (3, 0));
    let mut g = File::opened(3, 100);
    let r = g.read_request(&mut s, 1000);
    assert_eq!(r.count, 100);
    let r = g.read_request(&mut s, 10);
    assert_eq!(r.count, 10);
    assert_eq!(g.record_read(10), 10);
    assert_eq!(g.offset, 10);
}

#[test]
fn walk_outcome_keeps_the_fid_only_on_a_full_rwalk() {
    let full = Some(Message::RWalk(RWalk {
        header: hdr(HeaderType::Rwalk, 1),
        nwqid: 1,
        wqid: vec![Qid::default()],
    }));
    assert_eq!(Session::walk_outcome(5, 1, &full), Some(5));
    let partial = Some(Message::RWalk(RWalk::default()));
    assert_eq!(Session::walk_outcome(5, 1, &partial), None);
    assert_eq!(Session::walk_outcome(5, 0, &partial), Some(5));
    let err = Some(Message::RError(RError::default()));
    assert_eq!(Session::walk_outcome(5, 0, &err), None);
    assert_eq!(Session::walk_outcome(5, 0, &None), None);
}

#[test]
fn open_outcome_and_error_text() {
    let ok = Some(Message::ROpen(ROpen { header: hdr(HeaderType::Ropen, 1), qid: Qid::default(), iounit: 0 }));
    let f = Session::open_outcome(7, &ok).unwrap();
    assert_eq!((f.fid, f.offset, f.iounit), (7, 0, u32::MAX));
    assert!(Session::error_text(&ok).is_none());
    let err = Some(Message::RError(RError { header: hdr(HeaderType::Rerror, 1), ename: "nope".to_string() }));
    assert!(Session::open_outcome(7, &err).is_none());
    assert_eq!(Session::error_text(&err), Some("nope".to_string()));
    assert!(Session::open_outcome(7, &None).is_none());
    assert!(Session::error_text(&None).is_none());
}

#[test]
fn tags_in_use_are_never_handed_out() {
    let mut s = Session::new();
    let a = s.take_tag();
    let b = s.take_tag();
    assert!(a != b && a != 0 && b != 0);
    s.return_tag(a);
    assert_eq!(s.take_tag(), a);
    let c = s.take_tag();
    assert!(c != a && c != b);
}

#[test]
fn rwalk_without_qids_roundtrips() {
    let r = RWalk { header: hdr(HeaderType::Rwalk, 8), nwqid: 0, wqid: vec![] };
    let b = r.compose().unwrap();
    assert_eq!(b, vec![9, 0, 0, 0, 111, 8, 0, 0, 0]);
    let mut p = RWalk::default();
    let mut s: &[u8] = &b[4..];
    p.parse(&mut s);
    assert_eq!((p.nwqid, p.wqid.len(), p.get_tag()), (0, 0, 8));
}

#[test]
fn composing_a_parsed_message_gives_back_its_bytes() {
    let body = vec![116u8, 9, 0, 1, 0, 0, 0, 2, 0, 0, 0, 0, 0, 0, 0, 3, 0, 0, 0];
    let mut t = TRead::default();
    let mut s: &[u8] = &body;
    t.parse(&mut s);
    let mut expected = vec![23u8, 0, 0, 0];
    expected.extend(&body);
    assert_eq!(t.compose().unwrap(), expected);

    let mut body = vec![110u8, 1, 0, 5, 0, 0, 0, 6, 0, 0, 0, 1, 0, 2, 0];
    body.extend(b"hi");
    let w = TWalk::from_bytes(body.clone());
    let mut expected = vec![21u8, 0, 0, 0];
    expected.extend(&body);
    assert_eq!(w.compose().unwrap(), expected);
}

#[test]
fn frames_decode_to_header_and_message() {
    assert_eq!(Message::body_length(11), Some(7));
    assert_eq!(Message::body_length(3), None);
    match Message::from_frame(vec![121, 9, 0]) {
        Some((h, Message::RClunk(c))) => {
            assert_eq!(h.htag, 9);
            assert_eq!(c.get_tag(), 9);
        }
        _ => panic!("expected an Rclunk"),
    }
    assert!(Message::from_frame(vec![99, 9, 0]).is_none());
    assert!(Message::from_frame(vec![121, 9]).is_none());
    assert!(Message::from_frame(vec![124, 9, 0]).is_none());
}

#[test]
fn finish_read_copies_the_data() {
    let mut f = File::opened(3, 0);
    let r = RRead { header: hdr(HeaderType::Rread, 1), count: 2, data: vec![7, 8] };
    let mut buf = [0u8, 0, 9];
    assert_eq!(f.finish_read(&r, &mut buf), 2);
    assert_eq!(buf, [7, 8, 9]);
    assert_eq!(f.offset, 2);
    let empty = RRead { header: hdr(HeaderType::Rread, 1), count: 0, data: vec![] };
    assert_eq!(f.finish_read(&empty, &mut buf), 0);
    assert_eq!(buf, [7, 8, 9]);
    assert_eq!(f.offset, 2);
}

#[test]
fn fids_in_use_are_never_handed_out() {
    let mut s = Session::new();
    let a = s.take_fid();
    let b = s.take_fid();
    assert_ne!(a, 0);
    assert_ne!(a, b);
    s.return_fid(a);
    let c = s.take_fid();
    assert_eq!(c, a);
    let d = s.take_fid();
    assert!(d != b && d != c && d != 0);
}
