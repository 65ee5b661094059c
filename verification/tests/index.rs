use yasmine::fracidx::append_many;
use yasmine::index::playlist::Item;
use yasmine::ui::visible_items;
use yasmine::index::playlist::is_usable_position;
use yasmine::hex::{decode, encode};
use yasmine::index::art::{decode_cover, ArtCache, ArtRef, StoreStep, Stored, THUMB_SIZES};
use yasmine::libgen::png::cover;
use yasmine::index::db::{migration_steps, now_ms, SchemaTooNew, SCHEMA_VERSION};
use yasmine::index::library::{fts_query, order_rows, TrackRow};
use yasmine::index::norm::{album_key, fold_key};
use yasmine::index::playlist::{append_plan, folder_candidates, in_folder, move_target};
use yasmine::model::TrackId;
use yasmine::index::watch::{coalesce, interesting, Quiet, QuietAction, Wake};
use yasmine::index::scan::{is_audio_ext, plan_scan, Found, Known};

#[test]
fn termos_viram_prefixos_com_e_logico() {
    assert_eq!(fts_query("leg urb").as_deref(), Some("\"leg\"* \"urb\"*"));
}

#[test]
fn busca_vazia_nao_gera_expressao() {
    assert_eq!(fts_query("   "), None);
    assert_eq!(fts_query(""), None);
}

#[test]
fn caracteres_de_sintaxe_nao_escapam_do_termo() {
    assert_eq!(fts_query("a-b").as_deref(), Some("\"a-b\"*"));
    assert_eq!(fts_query("x\"y").as_deref(), Some("\"x\"\"y\"*"));
    assert_eq!(fts_query("OR").as_deref(), Some("\"OR\"*"));
}

#[test]
fn dobra_acento_caixa_e_espaco() {
    assert_eq!(fold_key("Legião Urbana"), "legiao urbana");
    assert_eq!(fold_key("  legiao   URBANA  "), "legiao urbana");
    assert_eq!(fold_key("Legião Urbana"), fold_key("legiao urbana"));
}

#[test]
fn cobre_acento_fora_do_latim1() {
    assert_eq!(fold_key("Dvořák"), "dvorak");
    assert_eq!(fold_key("Sigur Rós"), "sigur ros");
}

#[test]
fn album_homonimo_de_artistas_diferentes_nao_colide() {
    assert_ne!(
        album_key(Some("Queen"), "Greatest Hits"),
        album_key(Some("ABBA"), "Greatest Hits")
    );
}

#[test]
fn album_sem_artista_ainda_gera_chave() {
    assert_eq!(album_key(None, "Bootleg"), "\u{1f}bootleg");
}

#[test]
fn hex_ida_e_volta() {
    let mut h = [0u8; 32];
    for (i, b) in h.iter_mut().enumerate() {
        *b = (i as u8).wrapping_mul(37);
    }
    let s = encode(&h);
    assert_eq!(s.len(), 64);
    assert!(s.starts_with("00254a6f94b9"));
    assert_eq!(decode(&s), Some(h));
}

#[test]
fn hex_decode_aceita_maiusculas_e_espacos_em_volta() {
    let upper = "ABCDEF0123456789abcdef0123456789ABCDEF0123456789abcdef0123456789";
    let got = decode(&format!("  {upper}\n")).expect("64 dígitos");
    assert_eq!(got[0], 0xab);
    assert_eq!(got[31], 0x89);
    assert_eq!(encode(&got), upper.to_lowercase());
}

#[test]
fn hex_decode_recusa_tamanho_e_digito_errados() {
    assert_eq!(decode("abc"), None);
    assert_eq!(decode(&"g".repeat(64)), None);
    assert_eq!(decode(&"0".repeat(65)), None);
    // só dígitos hex: um sinal `+` não conta como dígito
    let plus = format!("+a{}", "0".repeat(62));
    assert_eq!(decode(&plus), None);
    assert_eq!(decode(&"+f".repeat(32)), None);
}

#[test]
fn caminho_da_miniatura_usa_o_hex_e_o_tamanho() {
    let h = [0xabu8; 32];
    let hex = "ab".repeat(32);
    assert_eq!(
        ArtRef::thumb_path("/cache", &h, 96),
        format!("/cache/art/ab/{hex}_96.jpg")
    );
    assert_eq!(
        ArtRef::thumb_path("/cache/", &h, 512),
        format!("/cache/art/ab/{hex}_512.jpg")
    );
    assert_eq!(THUMB_SIZES, [96, 512]);
}

#[test]
fn cache_de_capas_lembra_e_substitui() {
    let mut cache = ArtCache::new("/tmp/capas".to_string());
    assert!(cache.is_empty());
    assert_eq!(cache.dir(), "/tmp/capas");
    let a = [1u8; 32];
    let b = [2u8; 32];
    cache.preload(vec![(a, (4, 4)), (b, (10, 20)), (a, (8, 8))]);
    assert_eq!(cache.len(), 2);
    assert_eq!(cache.lookup(&a), Some((8, 8)));
    let art = cache.cached(&b).expect("conhecida");
    assert_eq!((art.hash, art.width, art.height), (b, 10, 20));
    assert_eq!(cache.cached(&[3u8; 32]), None);
    cache.record([3u8; 32], (1, 2));
    assert_eq!(cache.len(), 3);
}

#[test]
fn relogio_nao_e_negativo() {
    assert!(now_ms() > 1_600_000_000_000);
}

#[test]
fn mover_para_o_comeco_e_para_o_fim() {
    let ordered: Vec<String> = ["a0", "a1", "a2"].iter().map(|s| s.to_string()).collect();
    let inicio = move_target(&ordered, "a2", 0).expect("existe");
    assert!(inicio.as_str() < "a0");
    let fim = move_target(&ordered, "a0", 10).expect("existe");
    assert!(fim.as_str() > "a2");
    let meio = move_target(&ordered, "a0", 1).expect("existe");
    assert!("a1" < meio.as_str() && meio.as_str() < "a2");
    assert_eq!(move_target(&ordered, "zz", 0), None);
}

#[test]
fn faixa_sem_hash_nao_entra_mas_nao_impede_as_outras() {
    let tracks = vec![TrackId(1), TrackId(2), TrackId(3)];
    let positions: Vec<String> = ["a0", "a1", "a2"].iter().map(|s| s.to_string()).collect();
    let plan = append_plan(&tracks, &positions, &vec![true, false, true]);
    assert_eq!(
        plan,
        vec![(TrackId(1), "a0".to_string()), (TrackId(3), "a2".to_string())]
    );
}

#[test]
fn pasta_vinculada_pega_so_o_que_esta_dentro() {
    assert!(in_folder("Treino/01.mp3", "Treino"));
    assert!(!in_folder("Treinos/01.mp3", "Treino"));
    assert!(in_folder("Treino", "Treino"));
    assert!(in_folder("qualquer/coisa.mp3", ""));
    let rows = vec![
        (1, "Treino/00.mp3".to_string()),
        (2, "Treino/01.mp3".to_string()),
        (3, "Calma/01.mp3".to_string()),
    ];
    assert_eq!(
        folder_candidates(&rows, "Treino", &vec![]),
        vec![TrackId(1), TrackId(2)]
    );
    // sincronizar de novo não duplica
    assert_eq!(
        folder_candidates(&rows, "Treino", &vec![TrackId(1), TrackId(2)]),
        vec![]
    );
}

#[test]
fn blob_repetido_nao_vira_capa_nova() {
    let mut cache = ArtCache::new("/tmp/capas".to_string());
    // BLAKE3("abc"): the hash the cache looks covers up by.
    match cache.begin_store(b"abc") {
        StoreStep::Decode(h) => assert_eq!(
            encode(&h),
            "6437b3ac38465133ffb63b75273a8db548c558465d79db03fd359c6cd5bd9d85"
        ),
        StoreStep::Known(_) => panic!("cache vazio não conhece nada"),
    }
    let blob = cover(4, 1);
    let a = match cache.store(&blob) {
        Stored::New(a, d) => {
            assert_eq!(d.size(), (4, 4));
            assert_eq!(d.hash(), a.hash);
            a
        }
        _ => panic!("capa válida e nova"),
    };
    assert_eq!((a.width, a.height), (4, 4));
    let b = match cache.store(&blob) {
        Stored::Known(b) => b,
        _ => panic!("decodificaria de novo"),
    };
    assert_eq!(a, b);
    assert_eq!(cache.len(), 1, "o mesmo blob virou duas capas");
}

#[test]
fn imagem_quebrada_nao_derruba_o_scan() {
    let mut cache = ArtCache::new("/tmp/capas-quebradas".to_string());
    assert!(matches!(cache.store(b"isto nao e uma imagem"), Stored::Broken));
    assert!(cache.is_empty());
    assert!(decode_cover(b"isto nao e uma imagem").is_none());
}

#[test]
fn preload_evita_decodificar_de_novo() {
    let mut cache = ArtCache::new("/tmp/capas-preload".to_string());
    let blob = b"capa ja materializada";
    let hash: [u8; 32] = blake3::hash(blob).into();
    cache.preload(vec![(hash, (4, 4))]);
    match cache.begin_store(blob) {
        StoreStep::Known(art) => {
            assert_eq!(art.hash, hash);
            assert_eq!(art.width, 4);
        }
        StoreStep::Decode(_) => panic!("o preload disse que já estava materializada"),
    }
    assert_eq!(cache.len(), 1);
}

#[test]
fn vigia_junta_rajada_num_aviso_so() {
    assert!(interesting(false, &vec![Some("MP3".to_string())]));
    assert!(interesting(false, &vec![Some("txt".to_string()), None]));
    assert!(!interesting(false, &vec![Some("txt".to_string())]));
    assert!(!interesting(true, &vec![Some("flac".to_string())]));
    let mut state = Quiet::Idle;
    let mut sinais = 0;
    for w in [Wake::Event, Wake::Event, Wake::Event, Wake::Timeout, Wake::Timeout] {
        let (next, action) = coalesce(state, w);
        if action == QuietAction::Signal {
            sinais += 1;
        }
        state = next;
    }
    assert_eq!(sinais, 1);
    assert_eq!(coalesce(Quiet::Burst, Wake::Disconnected), (Quiet::Stopped, QuietAction::Stop));
}

#[test]
fn plano_do_scan_so_abre_o_que_mudou() {
    assert!(is_audio_ext("FLAC"));
    assert!(is_audio_ext("opus"));
    assert!(!is_audio_ext("jpg"));
    let known = vec![
        Known { rel_path: "a.mp3".into(), id: 1, file_size: 10, mtime_ns: 5 },
        Known { rel_path: "b.mp3".into(), id: 2, file_size: 10, mtime_ns: 5 },
        Known { rel_path: "sumiu.mp3".into(), id: 3, file_size: 1, mtime_ns: 1 },
    ];
    let found = vec![
        Found { rel_path: "a.mp3".into(), file_size: 10, mtime_ns: 5 },
        Found { rel_path: "b.mp3".into(), file_size: 11, mtime_ns: 5 },
        Found { rel_path: "novo.mp3".into(), file_size: 3, mtime_ns: 3 },
    ];
    let plan = plan_scan(&known, &found);
    assert_eq!(plan.unchanged, 1);
    assert_eq!(plan.to_parse, vec![1, 2]);
    assert_eq!(plan.removed, vec![3]);
}

fn linha(id: i64, title: &str) -> TrackRow {
    TrackRow {
        id: TrackId(id),
        title: title.into(),
        artist: None,
        artist_id: None,
        album: None,
        track_no: None,
        duration_ms: None,
        art_hash: None,
    }
}

#[test]
fn rows_respeita_a_ordem_dos_ids_pedidos() {
    let found = vec![linha(3, "c"), linha(1, "a"), linha(2, "b")];
    let got = order_rows(&vec![TrackId(2), TrackId(9), TrackId(1), TrackId(2), TrackId(3)], &found);
    let titles: Vec<&str> = got.iter().map(|r| r.title.as_str()).collect();
    assert_eq!(titles, vec!["b", "a", "c"]);
}

#[test]
fn avisa_quando_entra_arquivo_de_audio() {
    // nova.mp3 criado: o evento passa o filtro, e o silêncio depois dele vira um aviso.
    assert!(interesting(false, &vec![Some("mp3".to_string())]));
    let (state, action) = coalesce(Quiet::Idle, Wake::Event);
    assert_eq!(action, QuietAction::WaitQuiet);
    assert_eq!(coalesce(state, Wake::Timeout), (Quiet::Idle, QuietAction::Signal));
}

#[test]
fn ignora_arquivo_que_nao_e_audio() {
    assert!(!interesting(false, &vec![Some("jpg".to_string())]));
    assert!(!interesting(false, &vec![Some("txt".to_string())]));
}

#[test]
fn rajada_vira_um_aviso_so() {
    let mut state = Quiet::Idle;
    let mut avisos = 0;
    for _ in 0..30 {
        assert!(interesting(false, &vec![Some("mp3".to_string())]));
        let (next, action) = coalesce(state, Wake::Event);
        assert_ne!(action, QuietAction::Signal);
        state = next;
    }
    for _ in 0..3 {
        let (next, action) = coalesce(state, Wake::Timeout);
        if action == QuietAction::Signal {
            avisos += 1;
        }
        state = next;
    }
    assert_eq!(avisos, 1);
    // Passada a rajada, nada mais fica pendente.
    assert_eq!(state, Quiet::Idle);
}

#[test]
fn pasta_nova_conta_como_mudanca() {
    // "Álbum Novo" não tem extensão: pode ser pasta, e conta.
    assert!(interesting(false, &vec![None]));
}

#[test]
fn cria_schema_do_zero() {
    assert_eq!(migration_steps(0), Ok(vec![1, 2, 3, 4, 5]));
    assert_eq!(SCHEMA_VERSION, 5);
}

#[test]
fn migrar_de_novo_e_no_op() {
    assert_eq!(migration_steps(SCHEMA_VERSION), Ok(vec![]));
}

#[test]
fn recusa_indice_de_versao_futura() {
    let err = migration_steps(SCHEMA_VERSION + 1).expect_err("deveria recusar");
    assert_eq!(err, SchemaTooNew { found: SCHEMA_VERSION + 1, supported: SCHEMA_VERSION });
}

#[test]
fn passos_de_migracao_a_partir_da_v4() {
    assert_eq!(migration_steps(4), Ok(vec![5]));
}

fn conhecida(rel: &str, id: i64, size: u64, mtime: i64) -> Known {
    Known { rel_path: rel.into(), id, file_size: size, mtime_ns: mtime }
}

fn achada(rel: &str, size: u64, mtime: i64) -> Found {
    Found { rel_path: rel.into(), file_size: size, mtime_ns: mtime }
}

#[test]
fn plano_sem_mudanca_nao_reabre_nada() {
    let known = vec![conhecida("a/b/1.mp3", 1, 100, 7), conhecida("a/b/2.mp3", 2, 200, 7)];
    let found = vec![achada("a/b/1.mp3", 100, 7), achada("a/b/2.mp3", 200, 7)];
    let plan = plan_scan(&known, &found);
    assert_eq!(plan.unchanged, 2);
    assert!(plan.to_parse.is_empty());
    assert!(plan.removed.is_empty());
}

#[test]
fn arquivo_apagado_sai_do_indice_e_da_busca() {
    let known = vec![conhecida("a/1.mp3", 1, 100, 7), conhecida("a/2.mp3", 2, 200, 7)];
    let found = vec![achada("a/2.mp3", 200, 7)];
    let plan = plan_scan(&known, &found);
    assert_eq!(plan.removed, vec![1]);
    assert_eq!(plan.unchanged, 1);
    assert!(plan.to_parse.is_empty());
}

#[test]
fn plano_reabre_arquivo_editado_no_lugar() {
    let known = vec![conhecida("a/1.mp3", 1, 100, 7)];
    let found = vec![achada("a/1.mp3", 180, 9)];
    let plan = plan_scan(&known, &found);
    // Reaberto para reindexar, no lugar da linha que já existe.
    assert_eq!(plan.to_parse, vec![0]);
    assert!(plan.removed.is_empty());
    assert_eq!(plan.unchanged, 0);
}

#[test]
fn posicao_utilizavel_para_mover() {
    assert!(is_usable_position("a0"));
    assert!(is_usable_position(""));
    assert!(!is_usable_position("\0a"));
    assert!(!is_usable_position("aé"));
}

fn biblioteca_treino() -> Vec<(i64, String)> {
    vec![
        (1, "Treino/00.mp3".to_string()),
        (2, "Treino/01.mp3".to_string()),
        (3, "Treino/02.mp3".to_string()),
        (4, "Calma/01.mp3".to_string()),
    ]
}

#[test]
fn vincular_traz_so_as_faixas_da_pasta() {
    let novas = folder_candidates(&biblioteca_treino(), "Treino", &vec![]);
    assert_eq!(novas.len(), 3);
    assert_eq!(novas, vec![TrackId(1), TrackId(2), TrackId(3)]);
}

#[test]
fn sincronizar_de_novo_nao_duplica() {
    let rows = biblioteca_treino();
    let primeira = folder_candidates(&rows, "Treino", &vec![]);
    let segunda = folder_candidates(&rows, "Treino", &primeira);
    assert!(segunda.is_empty());
    assert_eq!(primeira.len() + segunda.len(), 3);
}

#[test]
fn candidata_nova_na_pasta_e_so_a_que_faltava() {
    let mut rows = biblioteca_treino();
    let primeira = folder_candidates(&rows, "Treino", &vec![]);
    rows.push((99, "Treino/99.mp3".to_string()));
    assert_eq!(folder_candidates(&rows, "Treino", &primeira), vec![TrackId(99)]);
}

#[test]
fn plano_de_acrescimo_mantem_a_ordem() {
    let faixas: Vec<TrackId> = (1..=5).map(TrackId).collect();
    let posicoes = append_many(None, faixas.len());
    let plano = append_plan(&faixas, &posicoes, &vec![true; 5]);
    assert_eq!(plano.len(), 5);
    let itens: Vec<Item> =
        plano.iter().map(|(t, p)| Item { position: p.clone(), track: Some(*t) }).collect();
    let mut ordenados = itens.clone();
    ordenados.sort_by(|a, b| a.position.cmp(&b.position));
    assert_eq!(visible_items(&ordenados).0, faixas);
}

#[test]
fn a_mesma_faixa_pode_entrar_duas_vezes() {
    let faixa = vec![TrackId(1)];
    let primeira = append_many(None, 1);
    let segunda = append_many(Some(&primeira[0]), 1);
    let a = append_plan(&faixa, &primeira, &vec![true]);
    let b = append_plan(&faixa, &segunda, &vec![true]);
    assert_eq!(a[0].0, b[0].0);
    assert!(a[0].1 < b[0].1);
    let itens = vec![
        Item { position: a[0].1.clone(), track: Some(a[0].0) },
        Item { position: b[0].1.clone(), track: Some(b[0].0) },
    ];
    assert_eq!(visible_items(&itens).0.len(), 2);
}

#[test]
fn mover_altera_apenas_a_posicao_do_item_movido() {
    let antes = append_many(None, 6);
    let novo = move_target(&antes, &antes[5], 2).expect("existe");
    let mut depois: Vec<String> = antes.clone();
    depois[5] = novo.clone();
    let mudadas = antes.iter().filter(|p| !depois.contains(p)).count();
    assert_eq!(mudadas, 1, "renumerou mais de um item");
    depois.sort();
    assert_eq!(depois[2], novo);
}

#[test]
fn item_sem_arquivo_local_continua_na_lista() {
    let itens = vec![
        Item { position: "a0".into(), track: Some(TrackId(1)) },
        Item { position: "a1".into(), track: None },
        Item { position: "a2".into(), track: Some(TrackId(3)) },
    ];
    assert_eq!(itens.len(), 3, "o item sumiu junto com a faixa");
    assert!(itens[1].track.is_none());
    assert_eq!(visible_items(&itens).0.len(), 2);
}

#[test]
fn espaco_em_branco_como_o_da_std() {
    for c in (0u32..=0x10FFFF).filter_map(char::from_u32) {
        assert_eq!(yasmine::strutil::is_whitespace(c), c.is_whitespace(), "{c:?}");
    }
    let h = [0xabu8; 32];
    assert_eq!(decode(&format!(" {}\n", encode(&h))), Some(h));
}
