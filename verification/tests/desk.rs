use yasmine::audio::Event;
use yasmine::desk::{
    empty_text, follow_event, hero_art, hero_eyebrow, move_selection, now_playing_line, nudge_target,
    playlist_subtitle, queue_position_text, rename_to, repeat_hint, row_menu, scan_status, switch_source,
    tile_choice, tile_gradient, toggle_action, unlink_label, Followed, RowMenu, TileChoice, Toggle,
};
use yasmine::model::{ArtistId, TrackId};
use yasmine::queue::{Queue, Repeat};
use yasmine::ui::Source;

#[test]
fn lista_vazia_diz_o_que_falta() {
    let pl = Source::Playlist([9u8; 16]);
    assert_eq!(empty_text(false, &pl, true), "Choose a music folder to get started.");
    assert_eq!(
        empty_text(true, &pl, true),
        "This playlist is empty. Right-click a track in your library to add it."
    );
    assert_eq!(empty_text(true, &Source::Artist(ArtistId(3)), true), "No tracks by this artist.");
    assert_eq!(empty_text(true, &Source::Library, true), "No tracks indexed in this folder.");
    assert_eq!(empty_text(true, &Source::Library, false), "Nothing found.");
    assert_eq!(hero_eyebrow(&pl), "PLAYLIST");
    assert_eq!(hero_eyebrow(&Source::Artist(ArtistId(3))), "ARTIST");
    assert_eq!(hero_eyebrow(&Source::Library), "");
}

#[test]
fn menu_da_linha_conforme_a_fonte() {
    let pl = Source::Playlist([1u8; 16]);
    let nome = Some("Legião Urbana".to_string());
    assert_eq!(
        row_menu(&pl, Some(ArtistId(7)), &nome, 0, 3),
        RowMenu { only_by_artist: true, remove: true, move_up: false, move_down: true }
    );
    assert_eq!(
        row_menu(&pl, Some(ArtistId(7)), &nome, 2, 3),
        RowMenu { only_by_artist: true, remove: true, move_up: true, move_down: false }
    );
    // Já filtrando por esse artista: o atalho some.
    let m = row_menu(&Source::Artist(ArtistId(7)), Some(ArtistId(7)), &nome, 1, 3);
    assert!(!m.only_by_artist && !m.remove && !m.move_up && !m.move_down);
    assert!(row_menu(&Source::Artist(ArtistId(8)), Some(ArtistId(7)), &nome, 1, 3).only_by_artist);
    // Sem nome de artista na linha, nada de atalho.
    assert!(!row_menu(&Source::Library, Some(ArtistId(7)), &None, 0, 1).only_by_artist);
}

#[test]
fn mover_na_playlist_fica_dentro_da_lista() {
    let pl = Source::Playlist([1u8; 16]);
    assert_eq!(nudge_target(&pl, 3, 1, -1, 3), Some(0));
    assert_eq!(nudge_target(&pl, 3, 1, 1, 3), Some(2));
    assert_eq!(nudge_target(&pl, 3, 0, -1, 3), None);
    assert_eq!(nudge_target(&pl, 3, 2, 1, 3), None);
    // Item sem posição conhecida, ou fora de uma playlist: nada.
    assert_eq!(nudge_target(&pl, 1, 1, 1, 3), None);
    assert_eq!(nudge_target(&Source::Library, 3, 1, 1, 3), None);
}

#[test]
fn setas_movem_a_selecao_sem_sair_da_lista() {
    assert_eq!(move_selection(None, 5, true), 0);
    assert_eq!(move_selection(None, 5, false), 0);
    assert_eq!(move_selection(Some(2), 5, true), 3);
    assert_eq!(move_selection(Some(4), 5, true), 4);
    assert_eq!(move_selection(Some(2), 5, false), 1);
    assert_eq!(move_selection(Some(0), 5, false), 0);
    assert_eq!(move_selection(Some(0), 0, true), 0);
}

#[test]
fn espaco_pausa_retoma_ou_toca() {
    assert_eq!(toggle_action(true, true, false, Some(3)), Toggle::Pause);
    assert_eq!(toggle_action(false, true, false, Some(3)), Toggle::Resume);
    assert_eq!(toggle_action(false, false, false, Some(3)), Toggle::PlayAt(3));
    assert_eq!(toggle_action(false, true, true, None), Toggle::PlayAt(0));
}

#[test]
fn trocar_de_fonte() {
    let a = Source::Playlist([1u8; 16]);
    let b = Source::Playlist([2u8; 16]);
    assert_eq!(switch_source(&a, &a), None);
    assert_eq!(switch_source(&a, &b), Some(false));
    assert_eq!(switch_source(&a, &Source::Artist(ArtistId(1))), Some(true));
    assert_eq!(switch_source(&Source::Artist(ArtistId(1)), &Source::Artist(ArtistId(1))), None);
    assert_eq!(switch_source(&Source::Artist(ArtistId(1)), &Source::Library), Some(false));
}

#[test]
fn janela_acompanha_o_motor() {
    let mut q = Queue::default();
    q.replace(vec![TrackId(10), TrackId(20)], 0);
    assert_eq!(
        follow_event(&mut q, Event::Started { path: "a.mp3".into() }),
        Followed::Nothing
    );
    assert_eq!(q.current(), Some(TrackId(10)));
    assert_eq!(
        follow_event(&mut q, Event::Advanced { path: "b.mp3".into() }),
        Followed::Adopt(TrackId(20))
    );
    assert_eq!(q.current(), Some(TrackId(20)));
    assert_eq!(follow_event(&mut q, Event::Finished), Followed::Ended);
    assert_eq!(
        follow_event(&mut q, Event::Error("sem dispositivo".into())),
        Followed::Status("sem dispositivo".into())
    );
    assert_eq!(q.current(), Some(TrackId(20)));
}

#[test]
fn miniatura_da_playlist() {
    assert_eq!(tile_choice(true, &vec![]), TileChoice::Chosen);
    assert_eq!(tile_choice(false, &vec![true, true, true, true, false]), TileChoice::Mosaic);
    assert_eq!(tile_choice(false, &vec![true, true, false, true]), TileChoice::FirstCover);
    assert_eq!(tile_choice(false, &vec![true, true, true]), TileChoice::FirstCover);
    assert_eq!(tile_choice(false, &vec![false, true, true, true]), TileChoice::Gradient);
    assert_eq!(tile_choice(false, &vec![]), TileChoice::Gradient);
    assert_eq!(tile_gradient(0), ((0x7C, 0x5C, 0xFF), (0x3A, 0x1F, 0x8C)));
    assert_eq!(tile_gradient(10), ((0xB8, 0x42, 0x2F), (0x5A, 0x1F, 0x1F)));
    assert_eq!(tile_gradient(255), ((0x59, 0x42, 0xB8), (0x24, 0x1D, 0x3F)));
}

#[test]
fn capa_do_cabecalho() {
    let pl = Source::Playlist([1u8; 16]);
    let covers = vec![[5u8; 32], [6u8; 32]];
    assert_eq!(hero_art(&pl, Some([4u8; 32]), &covers, None), Some([4u8; 32]));
    assert_eq!(hero_art(&pl, None, &covers, Some([7u8; 32])), Some([5u8; 32]));
    assert_eq!(hero_art(&pl, None, &vec![], None), None);
    assert_eq!(hero_art(&Source::Artist(ArtistId(1)), Some([4u8; 32]), &covers, Some([7u8; 32])), Some([7u8; 32]));
    assert_eq!(hero_art(&Source::Library, Some([4u8; 32]), &covers, Some([7u8; 32])), None);
}

#[test]
fn textos_da_janela() {
    assert_eq!(playlist_subtitle(42), "Playlist · 42 tracks");
    assert_eq!(unlink_label(""), "Unlink whole folder");
    assert_eq!(unlink_label("Rock/80s"), "Unlink \"Rock/80s\"");
    assert_eq!(repeat_hint(Repeat::Off), "Repeat: off (R)");
    assert_eq!(repeat_hint(Repeat::All), "Repeat: all (R)");
    assert_eq!(repeat_hint(Repeat::One), "Repeat: one (R)");
    assert_eq!(
        now_playing_line(&Some("Legião Urbana".into()), &Some("Dois".into())),
        "Legião Urbana  ·  Dois"
    );
    assert_eq!(now_playing_line(&None, &None), "—  ·  —");
    let longa = now_playing_line(&Some("A".repeat(40)), &Some("Álbum".into()));
    assert_eq!(longa.chars().count(), 36);
    assert!(longa.starts_with('…') && longa.ends_with("  ·  Álbum"));
    assert_eq!(queue_position_text(4, 42), "4 / 42");
    assert_eq!(scan_status(120), "scanning… 120");
    assert_eq!(rename_to("  Estrada  "), Some("Estrada".to_string()));
    assert_eq!(rename_to("   "), None);
    assert_eq!(rename_to(""), None);
}
