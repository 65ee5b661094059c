use yasmine::worker::{frames_in_ring, Queued, Tail, TailAction, Worker};

#[test]
fn frames_no_ring_contam_por_canal() {
    assert_eq!(frames_in_ring(8192, 8192, 2), 0);
    assert_eq!(frames_in_ring(8192, 4096, 2), 2048);
    assert_eq!(frames_in_ring(8192, 4095, 2), 2048);
    // Canais 0 conta como 1: nunca divide por zero.
    assert_eq!(frames_in_ring(100, 40, 0), 60);
}

#[test]
fn mesma_taxa_emenda_no_mesmo_ring() {
    let mut w = Worker::new();
    w.started();
    assert!(w.wants_play && !w.primed);
    w.set_next(Some("02.flac".into()));
    let next = w.decoder_ended().expect("havia próxima");
    assert_eq!(next, "02.flac");
    assert_eq!(w.next, None);
    assert!(w.next_opened(next, 180_000, Some(44_100), 44_100, 1_000, 500));
    assert_eq!(
        w.upcoming,
        vec![Queued { start_frame: 1_500, path: "02.flac".into(), duration_ms: 180_000 }]
    );
    assert_eq!(w.tail, None);

    // Ainda não chegou no alto-falante.
    assert!(w.check_advance(1_499).is_none());
    assert_eq!(w.upcoming.len(), 1);
    // Chegou: a posição passa a contar da faixa nova.
    let a = w.check_advance(1_600).expect("começou");
    assert_eq!(a.started.len(), 1);
    assert_eq!(a.started[0].path, "02.flac");
    assert_eq!(a.frames_played, 100);
    assert_eq!(a.duration_ms, 180_000);
    assert!(w.upcoming.is_empty());
}

#[test]
fn duas_faixas_curtas_na_mesma_rodada() {
    let mut w = Worker::new();
    assert!(w.next_opened("a".into(), 1, Some(48_000), 48_000, 0, 10));
    assert!(w.next_opened("b".into(), 2, Some(48_000), 48_000, 0, 20));
    assert!(w.next_opened("c".into(), 3, Some(48_000), 48_000, 0, 90));
    let a = w.check_advance(25).expect("duas começaram");
    let paths: Vec<&str> = a.started.iter().map(|q| q.path.as_str()).collect();
    assert_eq!(paths, vec!["a", "b"]);
    assert_eq!(a.frames_played, 5);
    assert_eq!(a.duration_ms, 2);
    assert_eq!(w.upcoming.len(), 1);
    assert_eq!(w.upcoming[0].path, "c");
}

#[test]
fn taxa_diferente_espera_o_ring_esvaziar() {
    let mut w = Worker::new();
    w.started();
    assert!(!w.next_opened("96k.flac".into(), 0, Some(44_100), 96_000, 10, 10));
    assert_eq!(w.tail, Some(Tail::Deferred { path: "96k.flac".into() }));
    assert!(w.upcoming.is_empty());
    // Com áudio no ring, ainda não.
    assert_eq!(w.take_tail(3), TailAction::Wait);
    assert_eq!(w.take_tail(0), TailAction::Reopen { path: "96k.flac".into() });
    assert_eq!(w.tail, None);
    w.primed = true;
    w.reopened(true);
    assert!(!w.primed && w.wants_play);
}

#[test]
fn reabrir_falhou_encerra() {
    let mut w = Worker::new();
    w.started();
    w.reopened(false);
    assert!(!w.wants_play);
}

#[test]
fn sem_proxima_avisa_o_fim_depois_de_drenar() {
    let mut w = Worker::new();
    w.started();
    assert_eq!(w.decoder_ended(), None);
    assert_eq!(w.tail, Some(Tail::Finish));
    assert_eq!(w.take_tail(1), TailAction::Wait);
    assert_eq!(w.take_tail(0), TailAction::Finish);
    assert!(!w.wants_play);
    assert_eq!(w.take_tail(0), TailAction::Wait);
}

#[test]
fn proxima_que_nao_abre_tambem_encerra() {
    let mut w = Worker::new();
    w.set_next(Some("sumiu.mp3".into()));
    assert_eq!(w.decoder_ended().as_deref(), Some("sumiu.mp3"));
    w.next_failed();
    assert_eq!(w.tail, Some(Tail::Finish));
}

#[test]
fn portao_espera_um_quarto_do_ring() {
    let mut w = Worker::new();
    w.started();
    // 1000 amostras, 800 livres: 20% cheio.
    assert_eq!(w.update_gate(Some((1000, 800)), true), (false, true));
    assert!(!w.primed);
    // 25%: abre.
    assert_eq!(w.update_gate(Some((1000, 750)), true), (true, true));
    // Depois de pronto, continua pronto mesmo com o ring vazio.
    assert_eq!(w.update_gate(Some((1000, 1000)), true), (true, true));
    w.set_wants_play(false);
    assert_eq!(w.update_gate(Some((1000, 1000)), true), (false, false));
}

#[test]
fn arquivo_menor_que_o_teto_abre_o_portao() {
    let mut w = Worker::new();
    w.started();
    assert_eq!(w.update_gate(Some((1000, 990)), false), (true, true));
    let mut sem_dispositivo = Worker::new();
    sem_dispositivo.started();
    assert_eq!(sem_dispositivo.update_gate(None, false), (false, true));
}

#[test]
fn parar_e_tocar_limpam_o_que_esperava() {
    let mut w = Worker::new();
    w.set_next(Some("x".into()));
    assert!(w.next_opened("y".into(), 0, Some(1), 1, 0, 0));
    w.stop();
    assert!(!w.wants_play && !w.primed && w.tail.is_none() && w.upcoming.is_empty());
    assert_eq!(w.next.as_deref(), Some("x"));
    assert!(!w.next_opened("z".into(), 0, Some(1), 2, 0, 0));
    assert!(w.tail.is_some());
    w.started();
    assert!(w.tail.is_none() && w.upcoming.is_empty() && w.wants_play);
    assert!(w.next_opened("y".into(), 0, Some(1), 1, 0, 0));
    w.seeked();
    assert!(w.upcoming.is_empty() && w.wants_play);
}

use yasmine::audio::Spec;
use yasmine::output::{callback_step, kind_supported, pick_config, CallbackStep, ConfigRange, SampleKind};

fn faixa(min_rate: u32, max_rate: u32, channels: u16, kind: SampleKind) -> ConfigRange {
    ConfigRange { min_rate, max_rate, channels, kind }
}

#[test]
fn dispositivo_abre_na_taxa_do_arquivo() {
    let want = Spec { sample_rate: 44_100, channels: 2 };
    let ranges = vec![
        faixa(48_000, 48_000, 2, SampleKind::F32),
        faixa(8_000, 192_000, 2, SampleKind::I16),
        faixa(8_000, 192_000, 2, SampleKind::F32),
    ];
    // A taxa pesa mais que o tipo de amostra: fica com a que cobre 44.1k.
    assert_eq!(pick_config(&ranges, want), Some((2, 44_100)));
    // Empate: a primeira.
    let iguais = vec![faixa(8_000, 96_000, 2, SampleKind::F32), faixa(8_000, 96_000, 2, SampleKind::F32)];
    assert_eq!(pick_config(&iguais, want), Some((0, 44_100)));
    // Nenhuma cobre a taxa: o limite mais próximo da escolhida.
    let so_48 = vec![faixa(48_000, 96_000, 6, SampleKind::F32), faixa(48_000, 48_000, 2, SampleKind::U16)];
    assert_eq!(pick_config(&so_48, want), Some((1, 48_000)));
    assert_eq!(pick_config(&vec![], want), None);
}

#[test]
fn canais_exatos_antes_de_estereo() {
    let want = Spec { sample_rate: 48_000, channels: 1 };
    let ranges = vec![
        faixa(48_000, 48_000, 6, SampleKind::F32),
        faixa(48_000, 48_000, 2, SampleKind::F32),
        faixa(48_000, 48_000, 1, SampleKind::I16),
    ];
    assert_eq!(pick_config(&ranges, want), Some((2, 48_000)));
    assert!(kind_supported(SampleKind::U16));
    assert!(!kind_supported(SampleKind::Other));
}

#[test]
fn callback_pausado_e_silencio() {
    assert_eq!(
        callback_step(3, 3, false, 512, 4096, 2),
        CallbackStep { flush: false, ack: 3, take: 0, starved: false, frames: 0 }
    );
    assert!(callback_step(4, 3, false, 512, 0, 2).flush);
}

#[test]
fn callback_copia_o_que_tem_e_marca_a_falta() {
    let cheio = callback_step(1, 1, true, 512, 4096, 2);
    assert_eq!((cheio.take, cheio.starved, cheio.frames), (512, false, 256));
    let faltou = callback_step(1, 1, true, 512, 100, 2);
    assert_eq!((faltou.take, faltou.starved, faltou.frames), (100, true, 50));
    let sem_canais = callback_step(1, 1, true, 512, 512, 0);
    assert_eq!(sem_canais.frames, 0);
}
