use yasmine::host::{log_line, send_percent, sending_line, LOG_LINES};
use yasmine::qr::{qr_ascii, qr_svg, raster, QrPixels};

#[test]
fn qr_de_texto_tem_blocos_e_zona_de_silencio() {
    let url = "yasmine://pair?k=AAAA&n=PC";
    let t = qr_ascii(url);
    assert!(t.lines().count() > 10);
    assert!(t.contains('█') || t.contains('▀') || t.contains('▄'));
    // O mesmo texto sempre dá o mesmo QR.
    assert_eq!(t, qr_ascii(url));
    assert_ne!(t, qr_ascii("yasmine://pair?k=BBBB&n=PC"));
}

#[test]
fn url_grande_demais_vira_aviso() {
    let grande = "x".repeat(8000);
    assert_eq!(qr_ascii(&grande), "(QR grande demais para o terminal — use a URL abaixo)");
    assert_eq!(qr_svg(&grande), "");
    let q = QrPixels::build(&grande);
    assert_eq!((q.side, q.rgba), (1, vec![0, 0, 0, 255]));
}

#[test]
fn qr_svg_nas_cores_do_app() {
    let svg = qr_svg("yasmine://pair?k=AAAA");
    assert!(svg.contains("<svg"));
    assert!(svg.contains("#0b0b0f") && svg.contains("#ffffff"));
}

#[test]
fn pixels_do_qr_tem_escala_inteira_e_borda_branca() {
    let q = QrPixels::build("yasmine://pair?k=AAAA&n=PC");
    // Versão 2 ou maior: 25+ módulos, mais 8 de zona de silêncio.
    assert!(q.side <= 460 && q.side >= 300);
    assert_eq!(q.rgba.len(), q.side * q.side * 4);
    // O canto fica na zona de silêncio: branco opaco.
    assert_eq!(&q.rgba[0..4], &[255, 255, 255, 255]);
    // Todo pixel é preto ou branco opaco.
    assert!(q.rgba.chunks(4).all(|p| p == [0, 0, 0, 255] || p == [255, 255, 255, 255]));
}

#[test]
fn rasterizar_um_codigo_conhecido() {
    // 21 módulos, só o primeiro escuro.
    let mut dark = vec![false; 21 * 21];
    dark[0] = true;
    let q = raster(21, &dark);
    // 29 módulos com a zona; 460 / 29 = 15 pixels cada.
    assert_eq!(q.side, 29 * 15);
    let px = |x: usize, y: usize| &q.rgba[(y * q.side + x) * 4..(y * q.side + x) * 4 + 4];
    assert_eq!(px(4 * 15, 4 * 15), &[0, 0, 0, 255]);
    assert_eq!(px(5 * 15 - 1, 5 * 15 - 1), &[0, 0, 0, 255]);
    assert_eq!(px(5 * 15, 4 * 15), &[255, 255, 255, 255]);
    assert_eq!(px(4 * 15 - 1, 4 * 15), &[255, 255, 255, 255]);
    assert_eq!(q.rgba.chunks(4).filter(|p| p[0] == 0).count(), 15 * 15);
}

#[test]
fn percentual_do_envio() {
    assert_eq!(send_percent(50, 200), 25);
    assert_eq!(send_percent(0, 0), 100);
    assert_eq!(send_percent(199, 200), 99);
    assert_eq!(sending_line("Pixel 8", 64, 128), "enviando pra Pixel 8: 50% (64/128 bytes)");
}

#[test]
fn log_guarda_so_as_ultimas_linhas() {
    let mut log = Vec::new();
    for i in 0..LOG_LINES + 5 {
        log_line(&mut log, format!("linha {i}"));
    }
    assert_eq!(log.len(), LOG_LINES);
    assert_eq!(log[0], "linha 5");
    assert_eq!(log[LOG_LINES - 1], format!("linha {}", LOG_LINES + 4));
}
