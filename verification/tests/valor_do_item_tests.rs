use adicionar_info_de_ctes_em_nfes::Colunas;

// The library holds monetary values in tenths of a thousandth; the tests
// read them back as plain floating-point numbers.
fn como_f64(r: Option<i64>) -> Option<f64> {
    r.map(|v| v as f64 / 10000.0)
}

fn mock_colunas_com_valor(valor: &str) -> Colunas {
    let mut c = Colunas::default();
    c.valor_item = valor.to_string();
    c
}

#[test]
fn test_formatos_comuns() {
    assert_eq!(
        como_f64(mock_colunas_com_valor("1.234,56").get_valor_do_item()),
        Some(1234.56)
    );
    assert_eq!(
        como_f64(mock_colunas_com_valor("1234,56").get_valor_do_item()),
        Some(1234.56)
    );
    assert_eq!(
        como_f64(mock_colunas_com_valor("1234.56").get_valor_do_item()),
        Some(1234.56)
    );
    assert_eq!(
        como_f64(mock_colunas_com_valor("1000").get_valor_do_item()),
        Some(1000.0)
    );
}

#[test]
fn test_valores_pequenos_e_negativos() {
    assert_eq!(
        como_f64(mock_colunas_com_valor("0,05").get_valor_do_item()),
        Some(0.05)
    );
    assert_eq!(
        como_f64(mock_colunas_com_valor("-10,50").get_valor_do_item()),
        Some(-10.5)
    );
    assert_eq!(
        como_f64(mock_colunas_com_valor("-1.500,00").get_valor_do_item()),
        Some(-1500.0)
    );
}

#[test]
fn test_limpeza_de_ruido() {
    assert_eq!(
        como_f64(mock_colunas_com_valor(" R$ 1.234,56 ").get_valor_do_item()),
        Some(1234.56)
    );
    assert_eq!(
        como_f64(mock_colunas_com_valor("valor: 100,00").get_valor_do_item()),
        Some(100.0)
    );
}

#[test]
fn test_casos_vazios_e_invalidos() {
    assert_eq!(mock_colunas_com_valor("").get_valor_do_item(), None);
    assert_eq!(mock_colunas_com_valor("abc").get_valor_do_item(), None);
    assert_eq!(mock_colunas_com_valor("...").get_valor_do_item(), None);
}

#[test]
fn test_limite_do_buffer_64_bytes() {
    let longo_valido = "0".repeat(64);
    assert!(mock_colunas_com_valor(&longo_valido)
        .get_valor_do_item()
        .is_some());

    let estouro = "1".repeat(65);
    assert_eq!(mock_colunas_com_valor(&estouro).get_valor_do_item(), None);
}

#[test]
fn test_multiplos_pontos_milhar() {
    assert_eq!(
        como_f64(mock_colunas_com_valor("1.000.000,00").get_valor_do_item()),
        Some(1000000.0)
    );
}

#[test]
fn test_notacao_cientifica() {
    assert_eq!(
        como_f64(mock_colunas_com_valor("1.23e4").get_valor_do_item()),
        Some(12300.0)
    );
    assert_eq!(
        como_f64(mock_colunas_com_valor("4.3e10").get_valor_do_item()),
        Some(43000000000.0)
    );
    assert_eq!(
        como_f64(mock_colunas_com_valor("-3.6e2").get_valor_do_item()),
        Some(-360.0)
    );
}
