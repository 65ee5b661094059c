use yasmine::index::art::{content_hash, thumb_target};
use yasmine::index::tags::parse_tags;
use yasmine::sync::discovery::decode_lower_hex;
use yasmine::sync::merge::merge_device;
use yasmine::sync::protocol::DeviceRow;
use yasmine::hex::hex_string;
use yasmine::index::norm::fold_decomposed;
use yasmine::sync::identity::encode_key;
use yasmine::sync::noise::put_record;
use yasmine::sync::pairing::{BadPairUrl, PairPayload};
use yasmine::ui::{Source, SourceArg};

/// A WAV file with no tag: mono, 8 kHz, 16 bits, two samples.
fn tiny_wav() -> Vec<u8> {
    let mut v = Vec::new();
    v.extend_from_slice(b"RIFF");
    v.extend_from_slice(&40u32.to_le_bytes());
    v.extend_from_slice(b"WAVE");
    v.extend_from_slice(b"fmt ");
    v.extend_from_slice(&16u32.to_le_bytes());
    v.extend_from_slice(&1u16.to_le_bytes());
    v.extend_from_slice(&1u16.to_le_bytes());
    v.extend_from_slice(&8000u32.to_le_bytes());
    v.extend_from_slice(&16000u32.to_le_bytes());
    v.extend_from_slice(&2u16.to_le_bytes());
    v.extend_from_slice(&16u16.to_le_bytes());
    v.extend_from_slice(b"data");
    v.extend_from_slice(&4u32.to_le_bytes());
    v.extend_from_slice(&[0, 0, 0, 0]);
    v
}

#[test]
fn parse_tags_without_a_tag_takes_the_title_from_the_file_name() {
    let wav = tiny_wav();
    let p = parse_tags("pasta/faixa um.wav", wav.len() as u64, 7, &wav).expect("a readable WAV");
    assert_eq!(p.rel_path, "pasta/faixa um.wav");
    assert_eq!(p.file_size, wav.len() as u64);
    assert_eq!(p.mtime_ns, 7);
    assert_eq!(p.title.as_deref(), Some("faixa um"));
    assert_eq!(p.artist, None);
    assert_eq!(p.album, None);
    assert_eq!(p.year, None);
    assert_eq!(p.picture, None);
    assert_eq!(p.codec.as_deref(), Some("Wav"));
    assert_eq!(p.sample_rate, Some(8000));
    assert_eq!(p.channels, Some(1));
    assert_eq!(p.bit_depth, Some(16));
}

#[test]
fn parse_tags_skips_an_unreadable_file() {
    assert!(parse_tags("quebrado.wav", 3, 0, b"xyz").is_none());
}

#[test]
fn content_hash_is_the_blake3_digest() {
    let empty = content_hash(b"");
    assert_eq!(hex_string(&empty), "af1349b9f5f9a1a6a0404dea36dcc9499bcb25c9adc112b7cc9a93cae41f3262");
    assert_eq!(content_hash(b"abc"), *blake3::hash(b"abc").as_bytes());
    assert_ne!(content_hash(b"abc"), content_hash(b"abd"));
}

#[test]
fn thumb_target_is_a_ceiling_and_never_zero() {
    assert_eq!(thumb_target(96, 1000, 500), 96);
    assert_eq!(thumb_target(512, 300, 200), 300);
    assert_eq!(thumb_target(512, 200, 300), 300);
    assert_eq!(thumb_target(96, 0, 0), 1);
    assert_eq!(thumb_target(512, 512, 512), 512);
}

#[test]
fn lower_hex_decoding_takes_only_lower_case_pairs() {
    assert_eq!(decode_lower_hex("0aff"), Some(vec![10, 255]));
    assert_eq!(decode_lower_hex(""), Some(vec![]));
    assert_eq!(decode_lower_hex("0aFF"), None);
    assert_eq!(decode_lower_hex("abc"), None);
    assert_eq!(decode_lower_hex("+a"), None);
    assert_eq!(hex_string(&[0x0a, 0xff, 0x00]), "0aff00");
}

#[test]
fn a_peer_never_rewrites_this_device_row() {
    let me = [7u8; 32];
    let mine = DeviceRow { id: me, name: "Este".into(), is_self: true, paired_at: None, last_sync_at: None };
    let incoming = DeviceRow { id: me, name: "Outro nome".into(), is_self: false, paired_at: Some(5), last_sync_at: None };
    assert!(merge_device(Some(me), Some(mine.clone()), &incoming, 10).is_none());

    let peer = DeviceRow { id: [9u8; 32], name: "Notebook".into(), is_self: false, paired_at: None, last_sync_at: Some(3) };
    let row = merge_device(Some(me), None, &peer, 10).expect("another device is merged");
    assert_eq!(row.id, [9u8; 32]);
    assert_eq!(row.name, "Notebook");
    assert!(!row.is_self);
    assert_eq!(row.paired_at, Some(10));
    assert_eq!(row.last_sync_at, Some(3));

    let known = merge_device(None, Some(mine), &incoming, 10).expect("no own row known");
    assert_eq!(known.name, "Outro nome");
    assert!(known.is_self);
}

#[test]
fn put_record_writes_the_length_then_the_record() {
    let mut out = vec![9u8];
    put_record(&mut out, &[1, 2, 3]);
    assert_eq!(out, vec![9, 0, 3, 1, 2, 3]);
    let big = vec![7u8; 300];
    let mut out2 = Vec::new();
    put_record(&mut out2, &big);
    assert_eq!(&out2[..2], &[1, 44]);
    assert_eq!(out2.len(), 302);
}

#[test]
fn fold_of_decomposed_chars_drops_marks_and_collapses_spaces() {
    let cs: Vec<char> = "  Jo\u{e3}o\u{301}   DA  Silva ".chars().collect();
    assert_eq!(fold_decomposed(&cs), "joão da silva");
    let nfd: Vec<char> = "Cafe\u{301}".chars().collect();
    assert_eq!(fold_decomposed(&nfd), "cafe");
}

#[test]
fn pairs_of_the_query_give_the_payload() {
    let key = [5u8; 32];
    let k = encode_key(&key);
    let pairs = vec![
        ("k".to_string(), k.clone()),
        ("h".to_string(), "10.0.0.2".to_string()),
        ("p".to_string(), "7400".to_string()),
        ("n".to_string(), "PC".to_string()),
        ("x".to_string(), "ignorado".to_string()),
    ];
    let p = PairPayload::from_pairs(&pairs).expect("válido");
    assert_eq!(p.key, key);
    assert_eq!(p.host.as_deref(), Some("10.0.0.2"));
    assert_eq!(p.port, Some(7400));
    assert_eq!(p.name, "PC");
    assert_eq!(PairPayload::from_pairs(&vec![]).err(), Some(BadPairUrl::MissingKey));
    let bad = vec![("k".to_string(), k), ("p".to_string(), "99999".to_string())];
    assert_eq!(PairPayload::from_pairs(&bad).err(), Some(BadPairUrl::Port));
}

#[test]
fn playlist_ids_in_every_uuid_form() {
    let want = Source::Playlist([
        0x67, 0xe5, 0x50, 0x44, 0x10, 0xb1, 0x42, 0x6f, 0x92, 0x47, 0xbb, 0x68, 0x0e, 0x5f, 0xe0, 0xc8,
    ]);
    for id in [
        "67e55044-10b1-426f-9247-bb680e5fe0c8",
        "67E55044-10B1-426F-9247-BB680E5FE0C8",
        "67e5504410b1426f9247bb680e5fe0c8",
        "{67e55044-10b1-426f-9247-bb680e5fe0c8}",
        "URN:uuid:67e55044-10b1-426f-9247-bb680e5fe0c8",
    ] {
        assert_eq!(Source::from_arg(&SourceArg::Playlist { id: id.into() }), Ok(want), "{id}");
    }
    for id in ["67e55044+10b1-426f-9247-bb680e5fe0c8", "{67e55044-10b1-426f-9247-bb680e5fe0c8", "urn:uuix:67e55044-10b1-426f-9247-bb680e5fe0c8"] {
        assert!(Source::from_arg(&SourceArg::Playlist { id: id.into() }).is_err(), "{id}");
    }
}
