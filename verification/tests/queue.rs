use yasmine::model::TrackId;
use yasmine::queue::{Queue, Repeat};

fn fila(n: usize, start: usize) -> Queue {
    let mut queue = Queue::default();
    queue.replace((0..n as i64).map(TrackId).collect(), start);
    queue
}

#[test]
fn anda_pra_frente_e_para_no_fim() {
    let mut queue = fila(3, 0);
    assert_eq!(queue.current(), Some(TrackId(0)));
    assert_eq!(queue.advance(), Some(TrackId(1)));
    assert_eq!(queue.advance(), Some(TrackId(2)));
    assert_eq!(queue.advance(), None, "sem repeat, a fila acaba");
}

#[test]
fn repeat_all_da_a_volta_nos_dois_sentidos() {
    let mut queue = fila(3, 2);
    queue.set_repeat(Repeat::All);
    assert_eq!(queue.advance(), Some(TrackId(0)));
    assert_eq!(queue.previous(), Some(TrackId(2)));
}

#[test]
fn repeat_one_fica_na_mesma_faixa() {
    let mut queue = fila(3, 1);
    queue.set_repeat(Repeat::One);
    assert_eq!(queue.peek_next(), Some(TrackId(1)));
    assert_eq!(queue.advance(), Some(TrackId(1)));
}

#[test]
fn anterior_escapa_do_repeat_one() {
    let mut queue = fila(3, 1);
    queue.set_repeat(Repeat::One);
    assert_eq!(queue.previous(), Some(TrackId(0)));
}

#[test]
fn peek_next_nao_mexe_no_cursor() {
    let queue = fila(3, 0);
    assert_eq!(queue.peek_next(), Some(TrackId(1)));
    assert_eq!(queue.current(), Some(TrackId(0)));
}

#[test]
fn ligar_shuffle_nao_troca_a_faixa_tocando() {
    let mut queue = fila(50, 17);
    assert_eq!(queue.current(), Some(TrackId(17)));
    queue.set_shuffle(true);
    assert_eq!(queue.current(), Some(TrackId(17)));
}

#[test]
fn desligar_shuffle_volta_a_ordem_natural_de_onde_esta() {
    let mut queue = fila(50, 17);
    queue.set_shuffle(true);
    queue.advance();
    let atual = queue.current().expect("faixa");

    queue.set_shuffle(false);
    assert_eq!(queue.current(), Some(atual), "pulou de faixa ao desligar");
    assert_eq!(queue.peek_next(), Some(TrackId(atual.0 + 1)));
}

#[test]
fn shuffle_usa_cada_faixa_exatamente_uma_vez() {
    let mut queue = fila(200, 0);
    queue.set_shuffle(true);

    let mut vistas = vec![queue.current().expect("primeira")];
    while let Some(faixa) = queue.advance() {
        vistas.push(faixa);
    }

    assert_eq!(vistas.len(), 200, "faixa faltando ou repetida");
    vistas.sort_unstable();
    vistas.dedup();
    assert_eq!(vistas.len(), 200, "faixa repetida antes de dar a volta");
}

#[test]
fn shuffle_realmente_embaralha() {
    let mut queue = fila(500, 0);
    queue.set_shuffle(true);

    let ordem: Vec<_> = std::iter::from_fn(|| queue.advance()).collect();
    let natural: Vec<_> = (1..500).map(TrackId).collect();
    assert_ne!(ordem, natural);
}

#[test]
fn fila_vazia_nao_estoura() {
    let mut queue = Queue::default();
    assert_eq!(queue.current(), None);
    assert_eq!(queue.advance(), None);
    assert_eq!(queue.previous(), None);
    queue.set_shuffle(true);
    assert!(queue.is_empty());
}

#[test]
fn ciclo_do_botao_de_repeat() {
    assert_eq!(Repeat::Off.next(), Repeat::All);
    assert_eq!(Repeat::All.next(), Repeat::One);
    assert_eq!(Repeat::One.next(), Repeat::Off);
}

#[test]
fn embaralhar_mantem_a_faixa_e_o_lugar_dela() {
    let mut q = Queue::default();
    q.set_shuffle(true);
    let tracks: Vec<TrackId> = (0..20).map(TrackId).collect();
    q.replace(tracks, 7);
    assert_eq!(q.current_index(), Some(7));
    assert_eq!(q.current(), Some(TrackId(7)));

    let mut q = Queue::default();
    q.replace((0..20).map(TrackId).collect(), 0);
    assert_eq!(q.position(), Some(1));
    q.set_shuffle(true);
    assert_eq!(q.position(), Some(1));
    let mut vistas = vec![q.current().expect("tocando")];
    while let Some(t) = q.advance() {
        vistas.push(t);
    }
    vistas.sort();
    assert_eq!(vistas, (0..20).map(TrackId).collect::<Vec<_>>());
}
