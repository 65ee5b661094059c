use yasmine::fracidx::is_valid_key;
use yasmine::fracidx::{append_many, between};

#[test]
fn casos_canonicos() {
    assert_eq!(between(None, None), "a0");
    assert_eq!(between(Some("a0"), None), "a1");
    assert_eq!(between(None, Some("a0")), "Zz");
    assert_eq!(between(Some("a0"), Some("a1")), "a0V");
    assert_eq!(between(Some("a0"), Some("a2")), "a1");
    assert_eq!(between(None, Some("Zz")), "Zy");
    assert_eq!(between(Some("Zz"), Some("a0")), "ZzV");
    assert_eq!(between(Some("az"), None), "b00");
}

#[test]
fn cabe_sempre_no_meio() {
    let a = between(None, None);
    let b = between(Some(&a), None);
    let meio = between(Some(&a), Some(&b));
    assert!(a < meio && meio < b, "{a} < {meio} < {b}");
}

#[test]
fn antes_do_primeiro() {
    let a = between(None, None);
    let antes = between(None, Some(&a));
    assert!(antes < a, "{antes} < {a}");
}

#[test]
fn cinquenta_mil_acrescimos_cabem_em_quatro_bytes() {
    let chaves = append_many(None, 50_000);
    let maior = chaves.iter().map(String::len).max().unwrap_or(0);
    assert!(maior <= 4, "chave de {maior} bytes acrescentando no fim");

    for par in chaves.windows(2) {
        assert!(par[0] < par[1], "saiu de ordem: {} < {}", par[0], par[1]);
    }
}

#[test]
fn cinquenta_mil_acrescimos_sem_colisao() {
    let chaves = append_many(None, 50_000);
    let mut unicas = chaves.clone();
    unicas.sort();
    unicas.dedup();
    assert_eq!(unicas.len(), 50_000, "houve colisão");
    assert_eq!(
        chaves, unicas,
        "a ordem de geração não bate com a lexicográfica"
    );
}

#[test]
fn mil_insercoes_no_mesmo_lugar_continuam_ordenadas() {
    let a = between(None, None);
    let b = between(Some(&a), None);

    let mut baixo = a;
    for n in 0..1000 {
        let meio = between(Some(&baixo), Some(&b));
        assert!(
            baixo < meio && meio < b,
            "quebrou na inserção {n}: {baixo} < {meio} < {b}"
        );
        baixo = meio;
    }
    assert!(baixo.len() < 250, "chave de {} bytes", baixo.len());
}

#[test]
fn insercoes_alternadas_nas_duas_pontas_continuam_ordenadas() {
    let mut chaves = vec![between(None, None)];
    for _ in 0..300 {
        let inicio = between(None, Some(&chaves[0]));
        chaves.insert(0, inicio);
        let fim = between(chaves.last().map(String::as_str), None);
        chaves.push(fim);
    }
    let mut ordenadas = chaves.clone();
    ordenadas.sort();
    assert_eq!(chaves, ordenadas);
}

#[test]
fn mil_insercoes_em_pontos_aleatorios() {
    let mut chaves: Vec<String> = append_many(None, 20);
    let mut seed = 0x9E37_79B9_7F4A_7C15u64;

    for _ in 0..1000 {
        seed ^= seed >> 12;
        seed ^= seed << 25;
        seed ^= seed >> 27;
        let at = (seed.wrapping_mul(0x2545_F491_4F6C_DD1D) as usize) % (chaves.len() + 1);

        let antes = at
            .checked_sub(1)
            .and_then(|i| chaves.get(i))
            .map(String::as_str);
        let depois = chaves.get(at).map(String::as_str);
        let nova = between(antes, depois);
        chaves.insert(at, nova);
    }

    for par in chaves.windows(2) {
        assert!(par[0] < par[1], "saiu de ordem: {} < {}", par[0], par[1]);
    }
}

#[test]
fn append_many_continua_de_onde_a_lista_parou() {
    let inicio = append_many(None, 3);
    let resto = append_many(inicio.last().map(String::as_str), 3);
    assert!(inicio.last() < resto.first());
}

#[test]
fn chave_valida_para_acrescentar() {
    assert!(is_valid_key("a0"));
    assert!(is_valid_key("a0V"));
    assert!(is_valid_key("Zz"));
    assert!(is_valid_key("b00"));
    assert!(!is_valid_key(""));
    assert!(!is_valid_key("a"));
    assert!(!is_valid_key("a0V0"));
    assert!(!is_valid_key("0a"));
    assert!(!is_valid_key("a-"));
    assert!(!is_valid_key("A00000000000000000000000000"));
    assert!(is_valid_key("A00000000000000000000000000V"));
}
