use adicionar_info_de_ctes_em_nfes::fmt_milhares;
use adicionar_info_de_ctes_em_nfes::valor_em_texto;
use adicionar_info_de_ctes_em_nfes::Colunas;
use adicionar_info_de_ctes_em_nfes::Config;

#[test]
fn milhares_com_pontos() {
    assert_eq!(fmt_milhares(0), "0");
    assert_eq!(fmt_milhares(7), "7");
    assert_eq!(fmt_milhares(999), "999");
    assert_eq!(fmt_milhares(1000), "1.000");
    assert_eq!(fmt_milhares(1234567), "1.234.567");
}

#[test]
fn valor_com_duas_casas() {
    assert_eq!(valor_em_texto(500_0000), "500.00");
    assert_eq!(valor_em_texto(0), "0.00");
    assert_eq!(valor_em_texto(1234_5600), "1234.56");
    // rounding half away from zero at the second decimal place
    assert_eq!(valor_em_texto(10_0050), "10.01");
    assert_eq!(valor_em_texto(10_0049), "10.00");
}

#[test]
fn sanitizador_colapsa_series_de_espacos() {
    let mut campo = "UM   DOIS  TRES".to_string();
    Colunas::sanitizar_campo(&mut campo);
    assert_eq!(campo, "UM DOIS TRES");

    // a single space stays, and without a double space nothing changes
    let mut unico = "UM DOIS".to_string();
    Colunas::sanitizar_campo(&mut unico);
    assert_eq!(unico, "UM DOIS");
}

#[test]
fn append_respeita_o_orcamento() {
    let mut config = Config::default();
    config.max_char = 40;

    // a fitting append writes the labelled suffix
    let mut campo = "base".to_string();
    config.append(&mut campo, "valor", "CT-e");
    assert_eq!(campo, "base [Info do CT-e: valor]");

    // the NF-e label takes the feminine article
    let mut campo2 = "base".to_string();
    config.append(&mut campo2, "valor", "NF-e");
    assert_eq!(campo2, "base [Info da NF-e: valor]");

    // an empty (or blank) value appends nothing
    let mut campo3 = "base".to_string();
    config.append(&mut campo3, "   ", "CT-e");
    assert_eq!(campo3, "base");

    // an append that would reach the budget is silently skipped
    let mut apertado = Config::default();
    apertado.max_char = 20;
    let mut campo4 = "base".to_string();
    apertado.append(&mut campo4, "valor", "CT-e");
    assert_eq!(campo4, "base");
}
