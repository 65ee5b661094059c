use std::collections::HashSet;

use yasmine::libgen::corpus::{plan, silent_mp3, FRAME_HEADER, FRAME_LEN, SAMPLES_PER_FRAME, SAMPLE_RATE};
use yasmine::libgen::png::{cover, SIGNATURE};
use yasmine::libgen::rng::Rng;

#[test]
fn mp3_tem_frames_inteiros_e_duracao_certa() {
    let data = silent_mp3(2);
    assert!(data.len() % FRAME_LEN == 0);

    let frames = data.len() / FRAME_LEN;
    let secs = (frames as f64 * f64::from(SAMPLES_PER_FRAME)) / f64::from(SAMPLE_RATE);
    assert!(
        (secs - 2.0).abs() < 0.03,
        "duração fora do esperado: {secs}"
    );
}

#[test]
fn todo_frame_comeca_com_sync() {
    let data = silent_mp3(1);
    for frame in data.chunks_exact(FRAME_LEN) {
        assert_eq!(&frame[..4], &FRAME_HEADER);
    }
}

#[test]
fn plano_e_deterministico() {
    let a = plan(200, 7, 16);
    let b = plan(200, 7, 16);
    assert_eq!(a.len(), b.len());
    for (x, y) in a.iter().zip(&b) {
        assert_eq!(x.artist, y.artist);
        assert_eq!(x.album, y.album);
        assert_eq!(x.titles, y.titles);
        assert_eq!(x.art, y.art);
    }
}

#[test]
fn plano_entrega_o_numero_pedido_de_faixas() {
    let total: usize = plan(1234, 3, 16).iter().map(|a| a.titles.len()).sum();
    assert_eq!(total, 1234);
}

#[test]
fn nenhum_par_artista_album_se_repete() {
    let albums = plan(50_000, 1, 8);
    let mut seen = HashSet::new();
    for a in &albums {
        assert!(
            seen.insert((a.artist.clone(), a.album.clone())),
            "diretório duplicado: {}/{}",
            a.artist,
            a.album
        );
    }
}

#[test]
fn capa_e_unica_por_album_e_repetida_dentro_dele() {
    let albums = plan(300, 11, 16);
    assert!(albums.len() > 2);
    assert_ne!(albums[0].art, albums[1].art);
}

#[test]
fn gera_png_com_assinatura_e_iend() {
    let png = cover(16, 42);
    assert_eq!(&png[..8], &SIGNATURE);
    assert!(png.ends_with(&[0xAE, 0x42, 0x60, 0x82]), "CRC do IEND");
}

#[test]
fn seeds_diferentes_geram_capas_diferentes() {
    assert_ne!(cover(16, 1), cover(16, 2));
}

#[test]
fn mesma_seed_gera_bytes_identicos() {
    assert_eq!(cover(16, 7), cover(16, 7));
}

#[test]
fn rng_seed_zero_nao_trava_em_zero() {
    let mut rng = Rng::new(0);
    assert_ne!(rng.next_u64(), 0);
    let mut a = Rng::new(5);
    let mut b = Rng::new(5);
    assert_eq!(a.next_u64(), b.next_u64());
    let r = a.range(3, 7);
    assert!((3..=7).contains(&r));
}

#[test]
fn silencio_tem_o_tamanho_de_frames_inteiros() {
    // 1 s = 44100 samples -> 39 frames of 417 bytes.
    assert_eq!(silent_mp3(1).len(), 39 * 417);
    assert_eq!(silent_mp3(0).len(), 0);
}

#[test]
fn png_crc_do_iend_e_o_conhecido() {
    // A 1x1 image still carries the fixed IEND chunk.
    let png = cover(1, 0);
    let n = png.len();
    assert_eq!(&png[n - 12..], &[0, 0, 0, 0, 0x49, 0x45, 0x4E, 0x44, 0xAE, 0x42, 0x60, 0x82]);
}

#[test]
fn rng_nunca_devolve_zero() {
    let mut a = yasmine::libgen::rng::Rng::new(0);
    let mut b = yasmine::libgen::rng::Rng::new(0x9E37_79B9_7F4A_7C15);
    for _ in 0..10_000 {
        let x = a.next_u64();
        assert_ne!(x, 0);
        assert_eq!(x, b.next_u64());
    }
}
