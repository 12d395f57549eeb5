use adicionar_info_de_ctes_em_nfes::scan_chaves;
use adicionar_info_de_ctes_em_nfes::Chave;

const NFE: &str = "11111111111111111111551111111111111111111111";
const CTE: &str = "22222222222222222222572222222222222222222222";

#[test]
fn parse_aceita_exatamente_44_digitos() {
    let k = Chave::new(NFE).expect("44 dígitos");
    assert!(k.is_nfe());
    assert!(!k.is_cte());
    let c = Chave::new(CTE).expect("44 dígitos");
    assert!(c.is_cte());
    assert!(!c.is_nfe());
}

#[test]
fn parse_ignora_ruido() {
    let com_ruido = format!("  ['{}']  ", NFE);
    assert_eq!(Chave::new(&com_ruido), Chave::new(NFE));
}

#[test]
fn parse_rejeita_pouco_e_demais() {
    // fewer than 44 digits
    assert_eq!(Chave::new("123"), None);
    assert_eq!(Chave::new(&"9".repeat(43)), None);
    // a 45th digit invalidates the key, even with noise between digits
    assert_eq!(Chave::new(&"9".repeat(45)), None);
    let quarenta_e_cinco = format!("{} {}", "1".repeat(40), "22222");
    assert_eq!(Chave::new(&quarenta_e_cinco), None);
    // empty
    assert_eq!(Chave::new(""), None);
}

#[test]
fn parse_ida_e_volta() {
    let k = Chave::new(NFE).unwrap();
    let texto = k.to_text();
    assert_eq!(texto, NFE);
    assert_eq!(Chave::new(&texto), Some(k));

    let c = Chave::new(CTE).unwrap();
    assert_eq!(Chave::new(&c.to_text()), Some(c));
}

#[test]
fn texto_citado_embala_em_aspas_simples() {
    let k = Chave::new(NFE).unwrap();
    assert_eq!(k.to_text_citado(), format!("'{}'", NFE));
}

#[test]
fn scanner_encontra_tokens_em_ordem() {
    let linha = format!("cte {} refere {} fim", CTE, NFE);
    let chaves = scan_chaves(&linha);
    assert_eq!(chaves.len(), 2);
    assert!(chaves[0].is_cte());
    assert!(chaves[1].is_nfe());

    // a 44-digit run glued to a word character is no token
    let colado = format!("x{}", NFE);
    assert_eq!(scan_chaves(&colado).len(), 0);

    // a 45-digit run is no token either
    let longo = "1".repeat(45);
    assert_eq!(scan_chaves(&longo).len(), 0);
}
