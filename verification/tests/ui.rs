use yasmine::ffi::{id_vec, FfiError, PairInfoFfi, PullReportFfi, SortFfi, StatsFfi, SyncPhase, TrackRowFfi};
use yasmine::host::{is_yes, ArgFail, Options};
use yasmine::index::library::{Sort, Stats, TrackRow};
use yasmine::model::{ArtistId, DeviceId, TrackId};
use yasmine::queue::Repeat;
use yasmine::sync::client::{Phase, PullReport};
use yasmine::sync::pairing::PairPayload;
use yasmine::index::playlist::Item;
use yasmine::ui::{
    cover_list, format_duration, format_ms, library_subtitle, repeat_str, shorten, tracks_label, view_window,
    visible_items, SortArg, Source, SourceArg, StatsDto, SyncInfo, TrackRowDto,
};

#[test]
fn textos_de_duracao() {
    assert_eq!(format_duration(0), "0:00");
    assert_eq!(format_duration(65), "1:05");
    assert_eq!(format_duration(3600), "60:00");
    assert_eq!(format_ms(Some(61_999)), "1:01");
    assert_eq!(format_ms(None), "--:--");
}

#[test]
fn textos_curtos() {
    assert_eq!(shorten("/home/ana/Música", 100), "/home/ana/Música");
    assert_eq!(shorten("/home/ana/Música", 7), "…Música");
    assert_eq!(shorten("/home/ana/Música", 8), "…/Música");
    assert_eq!(tracks_label(1), "1 track");
    assert_eq!(tracks_label(0), "0 tracks");
    assert_eq!(tracks_label(12), "12 tracks");
    assert_eq!(repeat_str(Repeat::Off), "off");
    assert_eq!(repeat_str(Repeat::All), "all");
    assert_eq!(repeat_str(Repeat::One), "one");
}

fn row() -> TrackRow {
    TrackRow {
        id: TrackId(7),
        title: "T".into(),
        artist: Some("A".into()),
        artist_id: Some(ArtistId(3)),
        album: None,
        track_no: Some(1),
        duration_ms: Some(1000),
        art_hash: Some([0x0f; 32]),
    }
}

#[test]
fn linhas_para_o_front() {
    let d = TrackRowDto::from_row(row());
    assert_eq!(d.id, 7);
    assert_eq!(d.artist_id, Some(3));
    assert_eq!(d.art, Some("0f".repeat(32)));
    let f = TrackRowFfi::from_row(row());
    assert_eq!(f.art_hash, Some("0f".repeat(32)));
    assert_eq!(Sort::from(SortArg::Title), Sort::Title);
    assert_eq!(Sort::from(SortArg::default()), Sort::ArtistAlbum);
    assert_eq!(Sort::from(SortFfi::RecentlyAdded), Sort::RecentlyAdded);
    let s = Stats { tracks: 1, albums: 2, artists: 3 };
    assert_eq!(StatsDto::from(s), StatsDto { tracks: 1, albums: 2, artists: 3 });
    assert_eq!(StatsFfi::from(s), StatsFfi { tracks: 1, albums: 2, artists: 3 });
    assert_eq!(SyncPhase::from(Phase::Indexing), SyncPhase::Indexing);
    assert_eq!(id_vec(vec![TrackId(4), TrackId(2)]), vec![4, 2]);
    let FfiError::Message(m) = FfiError::msg("falhou".into());
    assert_eq!(m, "falhou");
}

#[test]
fn capas_do_mosaico() {
    let covers = vec![[1u8; 32], [2u8; 32], [3u8; 32], [4u8; 32], [5u8; 32]];
    let with_image = cover_list(&Some([9u8; 32]), &covers);
    assert_eq!(with_image.len(), 4);
    assert_eq!(with_image[0], "09".repeat(32));
    assert_eq!(with_image[3], "03".repeat(32));
    assert_eq!(cover_list(&None, &covers).len(), 4);
    assert_eq!(cover_list(&None, &covers[..1].to_vec()), vec!["01".repeat(32)]);
}

#[test]
fn relatorio_e_pareamento_em_hex() {
    let r = PullReportFfi::from_report(PullReport {
        peer: DeviceId([0xaa; 32]),
        tracks_added: 2,
        bytes: 3,
        playlists_merged: 4,
        hash_mismatch: 0,
    });
    assert_eq!(r.peer, "aa".repeat(32));
    assert_eq!(r.playlists_merged, 4);
    let p = PairInfoFfi::from_payload(PairPayload {
        key: [0x10; 32],
        host: None,
        port: Some(1),
        name: "PC".into(),
    });
    assert_eq!(p.device_id, "10".repeat(32));
    assert_eq!(p.port, Some(1));
    let parado = SyncInfo::stopped();
    assert!(!parado.running && parado.pair_url.is_none());
    let rodando = SyncInfo::running(&"url".to_string(), &"<svg/>".to_string());
    assert_eq!(rodando.pair_url.as_deref(), Some("url"));
}

fn defaults() -> Options {
    Options {
        db_path: "/data/library.db".into(),
        cache_dir: "/cache".into(),
        music: None,
        port: 0,
        name: "PC".into(),
        mdns: false,
        gui: false,
    }
}

fn args(v: &[&str]) -> Vec<String> {
    v.iter().map(|s| s.to_string()).collect()
}

#[test]
fn opcoes_da_linha_de_comando() {
    let o = Options::parse(defaults(), &args(&["--port", "45777", "--mdns", "--name", "Sala", "--music", "/m"])).expect("válida");
    assert_eq!(o.port, 45777);
    assert!(o.mdns && !o.gui);
    assert_eq!(o.name, "Sala");
    assert_eq!(o.music.as_deref(), Some("/m"));
    assert_eq!(o.db_path, "/data/library.db");
    let a = args(&["--db"]);
    let e = Options::parse(defaults(), &a).unwrap_err();
    assert_eq!(e, ArgFail::NeedsValue(0));
    assert_eq!(e.message(&a), "--db precisa de um valor");
    assert_eq!(Options::parse(defaults(), &args(&["--port", "x"])).unwrap_err(), ArgFail::BadPort);
    assert_eq!(Options::parse(defaults(), &args(&["-h"])).unwrap_err(), ArgFail::Help);
    let b = args(&["--gui", "--foo"]);
    let e = Options::parse(defaults(), &b).unwrap_err();
    assert_eq!(e, ArgFail::Unknown(1));
    assert_eq!(e.message(&b), "opção desconhecida: --foo");
}

#[test]
fn resposta_de_pareamento() {
    assert!(is_yes("s\n"));
    assert!(is_yes("  sim "));
    assert!(is_yes("Y"));
    assert!(!is_yes("não"));
    assert!(!is_yes(""));
    assert!(!is_yes("yes"));
}

#[test]
fn janela_da_lista_e_itens_visiveis() {
    let view: Vec<TrackId> = (0..10).map(TrackId).collect();
    assert_eq!(view_window(&view, 2, 3), vec![TrackId(2), TrackId(3), TrackId(4)]);
    assert_eq!(view_window(&view, 8, 5), vec![TrackId(8), TrackId(9)]);
    assert_eq!(view_window(&view, 12, 5), vec![]);
    assert_eq!(view_window(&view, 1, usize::MAX).len(), 9);
    let items = vec![
        Item { position: "a0".into(), track: Some(TrackId(7)) },
        Item { position: "a1".into(), track: None },
        Item { position: "a2".into(), track: Some(TrackId(9)) },
    ];
    let (ids, positions) = visible_items(&items);
    assert_eq!(ids, vec![TrackId(7), TrackId(9)]);
    assert_eq!(positions, vec!["a0".to_string(), "a2".to_string()]);
    assert_eq!(library_subtitle(12, 3), "12 tracks · 3 albums");
}

#[test]
fn fonte_da_lista() {
    assert_eq!(Source::from_arg(&SourceArg::Library), Ok(Source::Library));
    assert_eq!(Source::from_arg(&SourceArg::Artist { id: 4 }), Ok(Source::Artist(ArtistId(4))));
    let ok = Source::from_arg(&SourceArg::Playlist { id: "67e55044-10b1-426f-9247-bb680e5fe0c8".into() });
    match ok {
        Ok(Source::Playlist(b)) => assert_eq!(b[0], 0x67),
        other => panic!("veio {other:?}"),
    }
    assert_eq!(
        Source::from_arg(&SourceArg::Playlist { id: "nao-e-uuid".into() }),
        Err("uuid inválido".to_string())
    );
}
