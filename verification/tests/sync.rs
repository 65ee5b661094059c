use yasmine::model::TrackId;
use yasmine::sync::channel::{frame, raw_record, record_len, split_records, take_frame, FrameError, NOISE_PLAIN_MAX};
use yasmine::sync::client::{bytes_total, check_cancel, display_name, resume_from, sanitize, target_path, PullError};
use yasmine::sync::identity::{decode_key, encode_key, Identity};
use yasmine::sync::merge::{
    arr16, arr32, bytes_greater, device_upsert, ensure_device, item_action, merge_track_state, merged_count,
    playlist_wins, stamp_peer, ItemAction,
};
use yasmine::sync::pairing::{parse_u16, BadPairUrl, PairPayload};
use yasmine::sync::protocol::{DeviceRow, ItemRow, PlaylistRow, TrackMeta, TrackStateRow, CHUNK, MAX_FRAME};
use yasmine::sync::noise::NoiseCodec;
use yasmine::sync::server::{blob_start, blob_step, check_hello, missing, AuthDecision};
use yasmine::sync::noise::{initiator_finish, initiator_hello, responder_finish, responder_reply};
use yasmine::sync::discovery::{advert_names, device_from_txt, txt_id};

fn addr(p: &PairPayload) -> Option<String> {
    p.addr_text()
}

#[test]
fn ida_e_volta_com_endereco() {
    let p = PairPayload {
        key: [7u8; 32],
        host: Some("192.168.0.42".into()),
        port: Some(45777),
        name: "PC do Gabriel".into(),
    };
    let url = p.to_url();
    assert_eq!(PairPayload::from_url(&url).expect("parse"), p);
    assert_eq!(addr(&p).as_deref(), Some("192.168.0.42:45777"));
}

#[test]
fn ida_e_volta_so_com_a_chave() {
    let p = PairPayload {
        key: [1u8; 32],
        host: None,
        port: None,
        name: String::new(),
    };
    let back = PairPayload::from_url(&p.to_url()).expect("parse");
    assert_eq!(back, p);
    assert_eq!(addr(&back), None);
}

#[test]
fn recusa_sem_chave() {
    assert!(matches!(
        PairPayload::from_url("yasmine://pair?n=PC"),
        Err(BadPairUrl::MissingKey)
    ));
}

#[test]
fn recusa_esquema_errado() {
    assert!(PairPayload::from_url("https://exemplo/pair?k=AAAA").is_err());
}

#[test]
fn nome_com_espaco_e_acento_sobrevive() {
    let p = PairPayload {
        key: [9u8; 32],
        host: None,
        port: None,
        name: "Notebook da Yasmine ♪".into(),
    };
    assert_eq!(
        PairPayload::from_url(&p.to_url()).expect("parse").name,
        "Notebook da Yasmine ♪"
    );
}

#[test]
fn url_tem_o_formato_do_qr() {
    let p = PairPayload {
        key: [0u8; 32],
        host: Some("10.0.0.2".into()),
        port: Some(7),
        name: "A B".into(),
    };
    assert_eq!(
        p.to_url(),
        format!("yasmine://pair?k={}&h=10.0.0.2&p=7&n=A+B", "A".repeat(43))
    );
    assert_eq!(p.device_id().0, [0u8; 32]);
}

#[test]
fn url_refusa_cada_campo_ruim() {
    assert_eq!(
        PairPayload::from_url("yasmine://pair?k=%%%"),
        Err(BadPairUrl::KeyNotBase64)
    );
    assert_eq!(
        PairPayload::from_url("yasmine://pair?k=AAAA"),
        Err(BadPairUrl::KeyLength)
    );
    let k = "A".repeat(43);
    assert_eq!(
        PairPayload::from_url(&format!("yasmine://pair?k={k}&p=70000")),
        Err(BadPairUrl::Port)
    );
    let ok = PairPayload::from_url(&format!("yasmine://pair/?k={}&p=%2B80&x=1", "A".repeat(43))).expect("aceita");
    assert_eq!(ok.port, Some(80));
    assert_eq!(BadPairUrl::MissingKey.message(), "falta k (a chave)");
}

#[test]
fn porta_como_str_parse() {
    let c = |s: &str| s.chars().collect::<Vec<char>>();
    assert_eq!(parse_u16(&c("45777")), Some(45777));
    assert_eq!(parse_u16(&c("+1")), Some(1));
    assert_eq!(parse_u16(&c("0065535")), Some(65535));
    assert_eq!(parse_u16(&c("65536")), None);
    assert_eq!(parse_u16(&c("")), None);
    assert_eq!(parse_u16(&c("+")), None);
    assert_eq!(parse_u16(&c("-1")), None);
}

fn playlist(name: &str, updated_at: i64, origin: [u8; 32]) -> PlaylistRow {
    PlaylistRow {
        id: [0x11; 16],
        name: name.into(),
        created_at: 1,
        updated_at,
        deleted: false,
        origin,
    }
}

#[test]
fn playlist_lww_mantem_a_mais_nova() {
    let me = [5u8; 32];
    let older = playlist("v1", 10, me);
    let newer = playlist("v2", 20, me);
    // chega a nova: não havia nada
    let mut stored: Option<PlaylistRow> = None;
    for incoming in [&newer, &older] {
        let local = stored.as_ref().map(|p| (p.updated_at, p.origin.to_vec()));
        if playlist_wins(&local, incoming) {
            stored = Some(incoming.clone());
        }
    }
    assert_eq!(stored.expect("gravada").name, "v2", "o merge deixou a versão velha ganhar");
}

#[test]
fn empate_de_playlist_decide_pela_origem() {
    let a = playlist("a", 10, [1u8; 32]);
    let b = playlist("b", 10, [2u8; 32]);
    assert!(playlist_wins(&Some((10, a.origin.to_vec())), &b));
    assert!(!playlist_wins(&Some((10, b.origin.to_vec())), &a));
    assert!(!playlist_wins(&Some((10, a.origin.to_vec())), &a));
    assert!(bytes_greater(&[1, 2], &[1]));
    assert!(!bytes_greater(&[1], &[1, 0]));
}

#[test]
fn play_count_soma_por_max_e_nao_perde_play() {
    // PC tocou 3x (par), celular tocou 2x (nós): contadores por device
    let mine = 2i64;
    let mut theirs: Option<i64> = None;
    theirs = Some(merged_count(theirs, 3));
    // aplicar de novo não muda nada
    theirs = Some(merged_count(theirs, 3));
    assert_eq!(mine + theirs.expect("contador"), 5, "esperado 2 + 3");
    assert_eq!(merged_count(Some(7), 3), 7);
}

fn item(deleted: bool, deleted_at: i64) -> ItemRow {
    ItemRow {
        playlist_id: [0x44; 16],
        position: "a0".into(),
        track_key: [0x55; 32],
        added_at: 1,
        deleted,
        deleted_at,
    }
}

#[test]
fn item_apagado_de_um_lado_nao_volta() {
    let base = item(false, 0);
    assert_eq!(item_action(true, None, &base), ItemAction::Insert);
    // nós apagamos localmente (túmulo com deleted_at alto); o par manda a
    // versão viva de novo
    assert_eq!(item_action(true, Some(100), &base), ItemAction::Keep);
    assert_eq!(item_action(true, Some(0), &item(true, 100)), ItemAction::Tombstone);
    assert_eq!(item_action(false, None, &base), ItemAction::Skip);
}

#[test]
fn estado_da_faixa_por_campo() {
    let local = TrackStateRow {
        track_key: [1; 32],
        last_played_at: Some(50),
        rating: Some(3),
        rating_updated_at: 10,
        resume_pos_ms: Some(1000),
        resume_updated_at: 30,
    };
    let incoming = TrackStateRow {
        track_key: [1; 32],
        last_played_at: Some(40),
        rating: Some(5),
        rating_updated_at: 20,
        resume_pos_ms: Some(9),
        resume_updated_at: 5,
    };
    let m = merge_track_state(Some(local), &incoming);
    assert_eq!(m.last_played_at, Some(50));
    assert_eq!(m.rating, Some(5));
    assert_eq!(m.rating_updated_at, 20);
    assert_eq!(m.resume_pos_ms, Some(1000));
    assert_eq!(m.resume_updated_at, 30);
    assert_eq!(merge_track_state(Some(m), &incoming), m, "merge idempotente");
    assert_eq!(merge_track_state(None, &incoming), incoming);
}

#[test]
fn devices_do_merge() {
    let d = DeviceRow {
        id: [3; 32],
        name: "PC".into(),
        is_self: false,
        paired_at: None,
        last_sync_at: Some(4),
    };
    let new = device_upsert(None, &d, 99);
    assert_eq!(new.paired_at, Some(99));
    assert_eq!(new.last_sync_at, Some(4));
    let renamed = device_upsert(Some(new.clone()), &DeviceRow { name: "Notebook".into(), ..d.clone() }, 1);
    assert_eq!(renamed.name, "Notebook");
    assert_eq!(renamed.paired_at, Some(99));
    assert_eq!(ensure_device(None, [8; 32]).name, "(desconhecido)");
    let stamped = stamp_peer(None, [6; 32], 7);
    assert_eq!((stamped.paired_at, stamped.last_sync_at), (Some(7), Some(7)));
    let again = stamp_peer(Some(stamped), [6; 32], 9);
    assert_eq!((again.paired_at, again.last_sync_at), (Some(7), Some(9)));
    assert_eq!(arr32(&[1u8; 32]), Some([1u8; 32]));
    assert_eq!(arr32(&[1u8; 31]), None);
    assert_eq!(arr16(&[2u8; 16]), Some([2u8; 16]));
}

#[test]
fn quadro_ida_e_volta_com_sobra() {
    let plain = vec![1u8, 2, 3];
    let mut rx = frame(&plain).expect("cabe");
    assert_eq!(rx, vec![0, 0, 0, 3, 1, 2, 3]);
    rx.extend_from_slice(&[9, 9]);
    assert_eq!(take_frame(&mut rx), Ok(Some(plain)));
    assert_eq!(rx, vec![9, 9]);
    assert_eq!(take_frame(&mut rx), Ok(None));
    let mut big = vec![0xff, 0xff, 0xff, 0xff];
    assert_eq!(take_frame(&mut big), Err(FrameError::FrameTooBig));
    assert!(MAX_FRAME < 0xffff_ffff);
}

#[test]
fn blob_maior_que_um_record_e_fatiado() {
    let data = vec![0xabu8; CHUNK];
    let framed = frame(&data).expect("cabe");
    let pieces = split_records(&framed);
    assert_eq!(pieces.len(), 3);
    assert!(pieces.iter().all(|p| p.len() <= NOISE_PLAIN_MAX));
    assert_eq!(pieces.concat(), framed);
    let rec = raw_record(&[7u8; 300]).expect("cabe");
    assert_eq!(&rec[..2], &[1, 44]);
    assert_eq!(record_len([1, 44]), 300);
    assert_eq!(raw_record(&vec![0u8; 70000]), Err(FrameError::RecordTooBig));
}

fn meta() -> TrackMeta {
    TrackMeta {
        hash: [0xab; 32],
        ext: "flac".into(),
        size: 10,
        title: Some("Tempo Perdido".into()),
        artist: Some("Legião Urbana".into()),
        album: Some("Dois".into()),
        album_artist: None,
        disc_no: None,
        track_no: Some(3),
        year: None,
        genre: None,
    }
}

#[test]
fn arquivo_recebido_vai_para_artista_album_titulo() {
    assert_eq!(
        target_path("/dest", &meta()),
        "/dest/Legião Urbana/Dois/03 Tempo Perdido.flac"
    );
    let sem_titulo = TrackMeta { title: Some("   ".into()), ext: String::new(), ..meta() };
    assert_eq!(
        target_path("/dest", &sem_titulo),
        format!("/dest/{}.bin", "ab".repeat(16))
    );
    let sem_tags = TrackMeta { artist: None, album: None, track_no: Some(12), ..meta() };
    assert_eq!(
        target_path("/d/", &sem_tags),
        "/d/Sem artista/Sem álbum/12 Tempo Perdido.flac"
    );
}

#[test]
fn nome_de_arquivo_higienizado() {
    assert_eq!(sanitize("AC/DC: Back?"), "AC_DC_ Back_");
    assert_eq!(sanitize("  ...oculto.  "), "oculto");
    assert_eq!(sanitize(" . "), "_");
    assert_eq!(sanitize(&"x".repeat(200)).chars().count(), 120);
    assert_eq!(sanitize("a\u{1}b"), "a_b");
}

#[test]
fn nome_no_progresso() {
    assert_eq!(display_name(&meta()), "Legião Urbana — Tempo Perdido");
    let so_titulo = TrackMeta { artist: None, ..meta() };
    assert_eq!(display_name(&so_titulo), "Tempo Perdido");
    let nada = TrackMeta { title: None, ..meta() };
    assert_eq!(display_name(&nada), "abababababab");
}

#[test]
fn retomar_download() {
    assert_eq!(resume_from(None, 100), (0, false));
    assert_eq!(resume_from(Some(40), 100), (40, false));
    assert_eq!(resume_from(Some(400), 100), (0, true));
    assert_eq!(resume_from(Some(0), 100), (0, true));
    assert_eq!(check_cancel(true), Err(PullError::Cancelled));
    assert_eq!(check_cancel(false), Ok(()));
    assert_eq!(bytes_total(&vec![meta(), meta()]), 20);
}

#[test]
fn host_manda_so_o_que_falta() {
    let mine = vec![([1u8; 32], TrackId(1)), ([2u8; 32], TrackId(2)), ([3u8; 32], TrackId(3))];
    assert_eq!(
        missing(&mine, &vec![[2u8; 32]]),
        vec![([1u8; 32], TrackId(1)), ([3u8; 32], TrackId(3))]
    );
    assert_eq!(check_hello(1), Ok(()));
    assert_eq!(check_hello(2), Err(2));
    assert_ne!(AuthDecision::Accept, AuthDecision::Reject);
    assert_eq!(blob_start(0, 10), (false, 0));
    assert_eq!(blob_start(4, 10), (true, 4));
    assert_eq!(blob_start(40, 10), (false, 10));
    assert_eq!(blob_step(4, 6, 10), (true, 10));
    assert_eq!(blob_step(0, 0, 10), (true, 0));
    assert_eq!(blob_step(0, 4, 10), (false, 4));
}

#[test]
fn chave_guardada_volta_igual() {
    let id = Identity::from_secret([42u8; 32]);
    assert_eq!(id.secret(), &[42u8; 32]);
    assert_eq!(id.device_id().0, id.public());
    assert_ne!(id.public(), [42u8; 32]);
    let again = Identity::from_secret([42u8; 32]);
    assert_eq!(again.public(), id.public());
    let stored = encode_key(id.secret());
    assert_eq!(decode_key(&stored), Some([42u8; 32]));
    assert_eq!(decode_key("AAAA"), None);
    assert_eq!(decode_key("!!"), None);
    let fresh = Identity::ephemeral().expect("aleatoriedade do sistema");
    assert_ne!(fresh.public(), id.public());
}

fn noise_pair() -> (snow::TransportState, snow::TransportState) {
    let params: snow::params::NoiseParams = "Noise_IK_25519_ChaChaPoly_BLAKE2s".parse().expect("params");
    let host_keys = snow::Builder::new(params.clone()).generate_keypair().expect("chaves do host");
    let phone_keys = snow::Builder::new(params.clone()).generate_keypair().expect("chaves do celular");
    let mut initiator = snow::Builder::new(params.clone())
        .local_private_key(&phone_keys.private)
        .remote_public_key(&host_keys.public)
        .build_initiator()
        .expect("iniciador");
    let mut responder = snow::Builder::new(params)
        .local_private_key(&host_keys.private)
        .build_responder()
        .expect("respondedor");
    let mut buf = vec![0u8; 65535];
    let mut scratch = vec![0u8; 65535];
    let n = initiator.write_message(&[], &mut buf).expect("msg1");
    responder.read_message(&buf[..n], &mut scratch).expect("ler msg1");
    let n = responder.write_message(&[], &mut buf).expect("msg2");
    initiator.read_message(&buf[..n], &mut scratch).expect("ler msg2");
    (
        initiator.into_transport_mode().expect("transporte"),
        responder.into_transport_mode().expect("transporte"),
    )
}

#[test]
fn canal_cifrado_remonta_blob_grande() {
    let (a, b) = noise_pair();
    let mut tx = NoiseCodec::new(a);
    let mut rx = NoiseCodec::new(b);
    let data = vec![0xabu8; CHUNK];
    let wire = tx.seal(&data).expect("selar");
    assert_ne!(&wire[2..10], &[0, 2, 0, 0, 0xab, 0xab, 0xab, 0xab], "o record saiu em claro");
    let mut rest = &wire[..];
    let mut records = 0;
    while !rest.is_empty() {
        let len = record_len([rest[0], rest[1]]);
        assert!(len <= 65535 && len > 16);
        rx.open(&rest[2..2 + len]).expect("abrir");
        rest = &rest[2 + len..];
        records += 1;
    }
    assert_eq!(records, 3);
    assert_eq!(rx.take_frame().expect("quadro"), Some(data));
    assert_eq!(rx.take_frame().expect("vazio"), None);
}

#[test]
fn handshake_reconhece_o_celular() {
    let host = Identity::from_secret([1u8; 32]);
    let phone = Identity::from_secret([2u8; 32]);
    let (hs_phone, msg1) = initiator_hello(&phone, &host.public()).expect("msg1");
    let (hs_host, peer, msg2) = responder_reply(&host, &msg1).expect("msg2");
    assert_eq!(peer, phone.public(), "host não reconheceu a estática do celular");
    let mut c = initiator_finish(hs_phone, &msg2).expect("transporte do celular");
    let mut s = responder_finish(hs_host).expect("transporte do host");
    for i in 0..50u8 {
        let wire = c.seal(&[i; 5]).expect("selar");
        let len = record_len([wire[0], wire[1]]);
        assert_eq!(len, 4 + 5 + 16);
        s.open(&wire[2..]).expect("abrir");
    }
    for i in 0..50u8 {
        assert_eq!(s.take_frame().expect("quadro"), Some(vec![i; 5]));
    }
    // uma chave de host diferente da do QR derruba o handshake
    let other = Identity::from_secret([3u8; 32]);
    let (hs_wrong, msg1) = initiator_hello(&phone, &other.public()).expect("msg1");
    assert!(responder_reply(&host, &msg1).is_err() || initiator_finish(hs_wrong, &msg2).is_err());
}

#[test]
fn descoberta_casa_pelo_id() {
    let id = yasmine::model::DeviceId([0x5a; 32]);
    let txt = txt_id(&id);
    assert_eq!(txt, "5a".repeat(32));
    assert_eq!(device_from_txt(&txt), Some(id));
    assert_eq!(device_from_txt(&"5A".repeat(32)), None);
    assert_eq!(device_from_txt("5a5a"), None);
    let (instance, host) = advert_names(&id);
    assert_eq!(instance, "5a".repeat(8));
    assert_eq!(host, format!("yasmine-{}.local.", "5a".repeat(6)));
}

/// Phone and host, each with its own identity, past the handshake.
fn par() -> (NoiseCodec, NoiseCodec) {
    let host = Identity::ephemeral().expect("aleatoriedade do sistema");
    let phone = Identity::ephemeral().expect("aleatoriedade do sistema");
    let (hs_phone, msg1) = initiator_hello(&phone, &host.public()).expect("msg1");
    let (hs_host, peer, msg2) = responder_reply(&host, &msg1).expect("msg2");
    assert_eq!(peer, phone.public(), "host não reconheceu a estática do celular");
    let c = initiator_finish(hs_phone, &msg2).expect("transporte do celular");
    let s = responder_finish(hs_host).expect("transporte do host");
    (c, s)
}

/// Hands every `[u16 len][record]` of `wire` to `rx`.
fn entrega(rx: &mut NoiseCodec, wire: &[u8]) {
    let mut rest = wire;
    while !rest.is_empty() {
        let len = record_len([rest[0], rest[1]]);
        rx.open(&rest[2..2 + len]).expect("abrir");
        rest = &rest[2 + len..];
    }
}

#[test]
fn troca_mensagem_pequena() {
    let (mut c, mut s) = par();
    // Hello { proto: 1, device_name: "celular" } já serializado.
    let hello = b"\x00\x01\x07celular".to_vec();
    let wire = c.seal(&hello).expect("enviar");
    entrega(&mut s, &wire);
    assert_eq!(s.take_frame().expect("receber"), Some(hello));
    assert_eq!(s.take_frame().expect("nada mais"), None);
}

#[test]
fn blob_maior_que_um_record_noise_e_remontado() {
    let (mut c, mut s) = par();
    let data = vec![0xABu8; CHUNK]; // 128 KiB > 65519, força fragmentação
    let wire = c.seal(&data).expect("enviar blob");
    assert!(wire.len() > CHUNK + 2 * 16);
    entrega(&mut s, &wire);
    assert_eq!(s.take_frame().expect("receber blob"), Some(data));
}

#[test]
fn varias_mensagens_em_sequencia() {
    let (mut c, mut s) = par();
    for i in 0..50u16 {
        let mut msg = vec![i as u8; 32];
        msg.extend_from_slice(&u64::from(i).to_le_bytes());
        let wire = c.seal(&msg).expect("enviar");
        entrega(&mut s, &wire);
    }
    for i in 0..50u16 {
        let got = s.take_frame().expect("receber").expect("mensagem");
        assert_eq!(&got[32..], &u64::from(i).to_le_bytes());
    }
    assert_eq!(s.take_frame().expect("nada mais"), None);
}

use yasmine::sync::client::{
    blob_ok, bytes_done, file_done, pull_start, pull_step, skip_file, start_file, Expect, PullAction,
};
use yasmine::sync::noise::{peer_key, ChannelError};
use yasmine::sync::protocol::{Msg, UserLayer};

#[test]
fn sessao_do_celular_passo_a_passo() {
    let st = pull_start();
    assert_eq!(st.expect, Expect::Hello);
    let (st, a) = pull_step(st, Msg::Hello { proto: 1, device_name: "PC".into() });
    assert!(matches!(a, PullAction::Continue));
    assert_eq!(st.expect, Expect::User);
    let (st, a) = pull_step(st, Msg::User(UserLayer::default()));
    assert!(matches!(a, PullAction::Merge(_)));
    assert_eq!(st.expect, Expect::Tracks);
    let (st, a) = pull_step(st, Msg::Tracks(vec![]));
    assert!(matches!(a, PullAction::Download(ref m) if m.is_empty()));
    assert_eq!(st.expect, Expect::Nothing);

    // Um arquivo retomado do byte 10, em dois pedaços.
    let st = start_file(st, [7u8; 32], 10);
    let (st, a) = pull_step(st, Msg::Blob { hash: [7u8; 32], offset: 10, data: vec![1, 2, 3], last: false });
    assert!(matches!(a, PullAction::Write { ref data, last: false } if data == &vec![1, 2, 3]));
    assert_eq!((st.expect, st.got), (Expect::Blob, 13));
    let (st, a) = pull_step(st, Msg::Blob { hash: [7u8; 32], offset: 13, data: vec![4], last: true });
    assert!(matches!(a, PullAction::Write { last: true, .. }));
    assert_eq!((st.expect, st.got), (Expect::Nothing, 14));
    assert_eq!(bytes_done(&st), Some(14));
    let st = file_done(st, 14, true).expect("cabe");
    assert_eq!((st.tracks_added, st.bytes, st.bytes_base), (1, 14, 14));

    // Arquivo que chegou errado é descartado e contado.
    let st = start_file(st, [8u8; 32], 0);
    let st = file_done(st, 5, false).expect("cabe");
    assert_eq!((st.tracks_added, st.hash_mismatch, st.bytes_base), (1, 1, 14));
    let st = skip_file(st, 100).expect("cabe");
    assert_eq!(st.bytes_base, 114);
    assert_eq!(skip_file(st, u64::MAX), None);
}

#[test]
fn retomada_conta_o_que_ja_estava_no_part() {
    // O que ficou no .part conta como já recebido: o pedido recomeça dali.
    let (from, drop_part) = resume_from(Some(40), 100);
    assert_eq!((from, drop_part), (40, false));
    let st = start_file(pull_start(), [1u8; 32], from);
    let (st, _) = pull_step(st, Msg::Blob { hash: [1u8; 32], offset: 40, data: vec![0; 60], last: true });
    assert_eq!(st.got, 100);
    assert_eq!(file_done(st, 100, true).expect("cabe").bytes, 100);
}

#[test]
fn sessao_para_no_que_nao_esperava() {
    let (_, a) = pull_step(pull_start(), Msg::Error { msg: "não pareado".into() });
    assert!(matches!(a, PullAction::Refused(ref m) if m == "não pareado"));
    let (st, _) = pull_step(pull_start(), Msg::Hello { proto: 1, device_name: String::new() });
    let (st, a) = pull_step(st, Msg::Error { msg: "x".into() });
    assert!(matches!(a, PullAction::Unexpected(Expect::User)));
    assert_eq!(st.expect, Expect::Nothing);
    let st = start_file(pull_start(), [1u8; 32], 0);
    let (_, a) = pull_step(st, Msg::Blob { hash: [2u8; 32], offset: 0, data: vec![], last: true });
    assert!(matches!(a, PullAction::WrongHash));
    let st = start_file(pull_start(), [1u8; 32], u64::MAX);
    let (_, a) = pull_step(st, Msg::Blob { hash: [1u8; 32], offset: 0, data: vec![1], last: true });
    assert!(matches!(a, PullAction::Overflow));
    let (_, a) = pull_step(st, Msg::Done);
    assert!(matches!(a, PullAction::Unexpected(Expect::Blob)));
}

#[test]
fn arquivo_baixado_confere_com_o_hash() {
    let h: [u8; 32] = blake3::hash(b"faixa").into();
    assert!(blob_ok(&h, b"faixa"));
    assert!(!blob_ok(&h, b"faixa corrompida"));
}

#[test]
fn chave_do_celular_no_handshake() {
    assert!(matches!(peer_key(None), Err(ChannelError::NoStaticKey)));
    assert!(matches!(peer_key(Some(vec![1; 31])), Err(ChannelError::StaticKeySize)));
    assert_eq!(peer_key(Some(vec![9; 32])).ok(), Some([9u8; 32]));
}

use yasmine::sync::server::{authorized, serve_step, ServeAction, ServeStage, ServeStop};
use yasmine::sync::protocol::PROTO_VERSION;

#[test]
fn recusa_device_nao_pareado() {
    let (st, a) = serve_step(ServeStage::Hello, Msg::Hello { proto: PROTO_VERSION, device_name: "celular".into() });
    assert_eq!(st, ServeStage::Authorize);
    assert!(matches!(a, ServeAction::Authorize(ref n) if n == "celular"));
    let (st, a) = authorized(st, AuthDecision::Reject);
    assert_eq!(st, ServeStage::Closed);
    assert!(matches!(a, ServeAction::Stop(ServeStop::NotPaired)));
}

#[test]
fn sessao_do_host_passo_a_passo() {
    let (st, _) = serve_step(ServeStage::Hello, Msg::Hello { proto: PROTO_VERSION, device_name: "c".into() });
    let (st, a) = authorized(st, AuthDecision::Accept);
    assert!(matches!(a, ServeAction::Welcome));
    let (st, a) = serve_step(st, Msg::Have { hashes: vec![[1u8; 32]] });
    assert!(matches!(a, ServeAction::List(ref h) if h.len() == 1));
    let (st, a) = serve_step(st, Msg::NeedBlob { hash: [2u8; 32], from: 5 });
    assert!(matches!(a, ServeAction::Send { from: 5, .. }));
    let (st, a) = serve_step(st, Msg::Done);
    assert!(matches!(a, ServeAction::Finish));
    assert_eq!(st, ServeStage::Closed);
    let (_, a) = serve_step(ServeStage::Hello, Msg::Hello { proto: PROTO_VERSION + 1, device_name: "c".into() });
    assert!(matches!(a, ServeAction::Stop(ServeStop::Version(v)) if v == PROTO_VERSION + 1));
    let (_, a) = serve_step(ServeStage::Have, Msg::Done);
    assert!(matches!(a, ServeAction::Stop(ServeStop::Unexpected(ServeStage::Have))));
}

#[test]
fn absorver_em_partes_remonta_o_quadro() {
    let (_, b) = noise_pair();
    let mut rx = NoiseCodec::new(b);
    let quadro = frame(&[1, 2, 3, 4, 5]).expect("quadro");
    rx.absorb(&quadro[..3]);
    assert_eq!(rx.take_frame().expect("incompleto"), None);
    rx.absorb(&quadro[3..]);
    assert_eq!(rx.take_frame().expect("completo"), Some(vec![1, 2, 3, 4, 5]));
}
