use adicionar_info_de_ctes_em_nfes::adicionar_info_de_ctes_em_nfe;
use adicionar_info_de_ctes_em_nfes::adicionar_info_de_nfes_em_cte;
use adicionar_info_de_ctes_em_nfes::Chave;
use adicionar_info_de_ctes_em_nfes::Colunas;
use adicionar_info_de_ctes_em_nfes::Config;
use adicionar_info_de_ctes_em_nfes::DocMetadata;
use adicionar_info_de_ctes_em_nfes::DocSummary;
use adicionar_info_de_ctes_em_nfes::Informacoes;
use adicionar_info_de_ctes_em_nfes::SummaryMap;

// 500.00 and 1000.00 in tenths of a thousandth.
const V500: u64 = 500_0000;
const V1000: u64 = 1000_0000;

fn mock_chave(prefixo: &str) -> Chave {
    let s = format!("{:0<44}", prefixo);
    Chave::new(&s).expect("Falha ao criar chave de teste")
}

fn mock_config_padrao() -> Config {
    let mut c = Config::default();
    c.max_char = 1000;
    c.max_info = 10;
    c
}

fn mock_colunas(chave: Chave) -> Colunas {
    let mut c = Colunas::default();
    c.chave = chave;
    c.cancelada = "Não".to_string();
    c.ncm = "00000000".to_string();
    c
}

#[test]
fn teste_enriquecimento_nfe_com_cte() {
    let mut config = mock_config_padrao();
    config.max_info = 2;

    let chave_nfe = mock_chave("1111111111111111111155");
    let chave_cte = mock_chave("2222222222222222222257");

    // 1. Relations: the transitivity index.
    let mut info = Informacoes::vazio();
    info.nfe_ctes.inserir_par(chave_nfe, chave_cte);

    // 2. The manifest's metadata (the document that contributes the info).
    let mut colunas_cte = mock_colunas(chave_cte);
    colunas_cte.remetente_cnpj1 = "12.345.678/0001-99".to_string();
    colunas_cte.inicio_municipio = "SÃO PAULO".to_string();

    let mut cte_resumo_map = SummaryMap::vazia();
    cte_resumo_map.empurrar(
        chave_cte,
        DocSummary {
            num_de_itens: 1,
            item_valor_total: V500 as u128,
            item_valor_maximo: V500,
            metadata: Some(DocMetadata::Cte(colunas_cte.extrair_cte_metadata())),
        },
    );

    // 3. Enrich the invoice row.
    let mut row_nfe = mock_colunas(chave_nfe);
    adicionar_info_de_ctes_em_nfe(&mut row_nfe, &config, &info, &cte_resumo_map);

    // 4. Assertions.
    assert!(row_nfe.chave_de_acesso.contains("1 CTe"));
    assert!(row_nfe.chave_de_acesso.contains("500.00"));
    assert!(row_nfe.remetente_cnpj1.contains("12.345.678/0001-99"));
    assert!(row_nfe.inicio_municipio.contains("SÃO PAULO"));
}

#[test]
fn teste_sobreposicao_ncm_no_cte() {
    let config = mock_config_padrao();

    let chave_cte = mock_chave("2222222222222222222257");
    let chave_nfe = mock_chave("1111111111111111111155");

    // 1. Relations.
    let mut info = Informacoes::vazio();
    info.cte_nfes.inserir_par(chave_cte, chave_nfe);

    // 2. The invoice's metadata (the document that contributes the code).
    let mut colunas_nfe = mock_colunas(chave_nfe);
    colunas_nfe.ncm = "84713012".to_string();
    colunas_nfe.contribuinte_nome = "FORNECEDOR LTDA".to_string();

    let mut nfe_resumo_map = SummaryMap::vazia();
    nfe_resumo_map.empurrar(
        chave_nfe,
        DocSummary {
            num_de_itens: 1,
            item_valor_total: V1000 as u128,
            item_valor_maximo: V1000,
            metadata: Some(DocMetadata::Nfe(colunas_nfe.extrair_nfe_metadata())),
        },
    );

    // 3. Enrich the manifest row.
    let mut row_cte = mock_colunas(chave_cte);
    row_cte.ncm = "00000000".to_string();

    adicionar_info_de_nfes_em_cte(&mut row_cte, &config, &info, &nfe_resumo_map);

    // 4. The manifest's placeholder code was overwritten outright.
    assert_eq!(row_cte.ncm, "84713012");
    assert!(row_cte.contribuinte_nome.contains("FORNECEDOR LTDA"));
}

#[test]
fn resumo_tem_formato_exato() {
    let config = mock_config_padrao();

    let chave_nfe = mock_chave("1111111111111111111155");
    let chave_cte = mock_chave("2222222222222222222257");

    let mut info = Informacoes::vazio();
    info.nfe_ctes.inserir_par(chave_nfe, chave_cte);

    let mut cte_resumo_map = SummaryMap::vazia();
    cte_resumo_map.empurrar(
        chave_cte,
        DocSummary {
            num_de_itens: 1,
            item_valor_total: V500 as u128,
            item_valor_maximo: V500,
            metadata: Some(DocMetadata::Cte(mock_colunas(chave_cte).extrair_cte_metadata())),
        },
    );

    let mut row_nfe = mock_colunas(chave_nfe);
    let mudou = adicionar_info_de_ctes_em_nfe(&mut row_nfe, &config, &info, &cte_resumo_map);
    assert!(mudou);
    assert_eq!(
        row_nfe.chave_de_acesso,
        format!(
            "NFe: {}, 1 CTe: [{}] de valor total = 500.00",
            chave_nfe.to_text(),
            chave_cte.to_text()
        )
    );
}

#[test]
fn enriquecimento_sem_relacao_nao_muda_nada() {
    let config = mock_config_padrao();
    let chave_nfe = mock_chave("1111111111111111111155");

    let info = Informacoes::vazio();
    let vazio = SummaryMap::vazia();

    let mut row = mock_colunas(chave_nfe);
    let mudou = adicionar_info_de_ctes_em_nfe(&mut row, &config, &info, &vazio);
    assert!(!mudou);
    assert_eq!(row.chave_de_acesso, "");
}

#[test]
fn candidatos_saem_em_ordem_de_valor() {
    let mut config = mock_config_padrao();
    config.max_info = 10;

    let chave_nfe = mock_chave("1111111111111111111155");
    let cte_menor = mock_chave("2222222222222222222257");
    let cte_maior = mock_chave("3333333333333333333357");

    let mut info = Informacoes::vazio();
    info.nfe_ctes.inserir_par(chave_nfe, cte_menor);
    info.nfe_ctes.inserir_par(chave_nfe, cte_maior);

    let mut mapa = SummaryMap::vazia();
    mapa.empurrar(
        cte_menor,
        DocSummary {
            num_de_itens: 1,
            item_valor_total: 100_0000,
            item_valor_maximo: 100_0000,
            metadata: Some(DocMetadata::Cte(mock_colunas(cte_menor).extrair_cte_metadata())),
        },
    );
    mapa.empurrar(
        cte_maior,
        DocSummary {
            num_de_itens: 1,
            item_valor_total: 900_0000,
            item_valor_maximo: 900_0000,
            metadata: Some(DocMetadata::Cte(mock_colunas(cte_maior).extrair_cte_metadata())),
        },
    );

    let mut row = mock_colunas(chave_nfe);
    adicionar_info_de_ctes_em_nfe(&mut row, &config, &info, &mapa);

    // the higher-valued manifest comes first, and the totals add up
    assert_eq!(
        row.chave_de_acesso,
        format!(
            "NFe: {}, 2 CTes: [{}, {}] de valor total = 1000.00",
            chave_nfe.to_text(),
            cte_maior.to_text(),
            cte_menor.to_text()
        )
    );
}
