use adicionar_info_de_ctes_em_nfes::Chave;
use adicionar_info_de_ctes_em_nfes::Colunas;
use adicionar_info_de_ctes_em_nfes::DocMetadata;
use adicionar_info_de_ctes_em_nfes::DocSummary;
use adicionar_info_de_ctes_em_nfes::SummaryPair;

fn chave(prefixo: &str) -> Chave {
    Chave::new(&format!("{:0<44}", prefixo)).unwrap()
}

fn resumo(n: u64, total: u128, max: u64, nome: &str) -> DocSummary {
    let mut c = Colunas::default();
    c.contribuinte_nome = nome.to_string();
    DocSummary {
        num_de_itens: n,
        item_valor_total: total,
        item_valor_maximo: max,
        metadata: Some(DocMetadata::Nfe(c.extrair_nfe_metadata())),
    }
}

fn nome_de(s: &DocSummary) -> String {
    match &s.metadata {
        Some(DocMetadata::Nfe(m)) => m.contribuinte_nome.clone(),
        _ => String::new(),
    }
}

#[test]
fn merge_e_comutativo_nos_numeros() {
    let mut ab = resumo(2, 300_0000, 200_0000, "A");
    ab.merge(resumo(1, 100_0000, 100_0000, "B"));

    let mut ba = resumo(1, 100_0000, 100_0000, "B");
    ba.merge(resumo(2, 300_0000, 200_0000, "A"));

    assert_eq!(ab.num_de_itens, ba.num_de_itens);
    assert_eq!(ab.item_valor_total, ba.item_valor_total);
    assert_eq!(ab.item_valor_maximo, ba.item_valor_maximo);
    // distinct maxima: the same snapshot wins on both sides
    assert_eq!(nome_de(&ab), "A");
    assert_eq!(nome_de(&ba), "A");
}

#[test]
fn merge_e_associativo() {
    let faz = |ordem: [u8; 2]| {
        let a = resumo(1, 100_0000, 100_0000, "A");
        let b = resumo(1, 500_0000, 500_0000, "B");
        let c = resumo(1, 300_0000, 300_0000, "C");
        if ordem[0] == 0 {
            // (a + b) + c
            let mut ab = a;
            ab.merge(b);
            ab.merge(c);
            ab
        } else {
            // a + (b + c)
            let mut bc = b;
            bc.merge(c);
            let mut abc = a;
            abc.merge(bc);
            abc
        }
    };
    let esq = faz([0, 0]);
    let dir = faz([1, 0]);
    assert_eq!(esq.num_de_itens, dir.num_de_itens);
    assert_eq!(esq.item_valor_total, dir.item_valor_total);
    assert_eq!(esq.item_valor_maximo, dir.item_valor_maximo);
    assert_eq!(nome_de(&esq), nome_de(&dir));
    assert_eq!(nome_de(&esq), "B");
}

#[test]
fn empate_exato_fica_com_a_esquerda() {
    let mut ab = resumo(1, 100_0000, 100_0000, "A");
    ab.merge(resumo(1, 100_0000, 100_0000, "B"));
    assert_eq!(nome_de(&ab), "A");
    assert_eq!(ab.num_de_itens, 2);
    assert_eq!(ab.item_valor_total, 200_0000);
}

#[test]
fn acumulacao_particionada_da_o_mesmo_resultado() {
    let k_nfe = chave("1111111111111111111155");
    let k_cte = chave("2222222222222222222257");

    let linha = |ch: Chave, valor: &str, nome: &str| {
        let mut c = Colunas::default();
        c.chave = ch;
        c.valor_item = valor.to_string();
        c.contribuinte_nome = nome.to_string();
        c
    };
    let linhas = [
        linha(k_nfe, "100,00", "um"),
        linha(k_nfe, "300,00", "dois"),
        linha(k_cte, "50,00", "tres"),
        linha(k_nfe, "200,00", "quatro"),
    ];

    // one worker
    let mut tudo = SummaryPair::vazio();
    for l in &linhas {
        tudo.acumular_linha(l);
    }

    // two workers, merged
    let mut p1 = SummaryPair::vazio();
    p1.acumular_linha(&linhas[0]);
    p1.acumular_linha(&linhas[1]);
    let mut p2 = SummaryPair::vazio();
    p2.acumular_linha(&linhas[2]);
    p2.acumular_linha(&linhas[3]);
    p1.merge(p2);

    let a = tudo.nfes.obter(&k_nfe).unwrap();
    let b = p1.nfes.obter(&k_nfe).unwrap();
    assert_eq!(a.num_de_itens, 3);
    assert_eq!(b.num_de_itens, 3);
    assert_eq!(a.item_valor_total, 600_0000);
    assert_eq!(b.item_valor_total, 600_0000);
    assert_eq!(a.item_valor_maximo, 300_0000);
    assert_eq!(b.item_valor_maximo, 300_0000);
    assert_eq!(nome_de(a), "dois");
    assert_eq!(nome_de(b), "dois");

    assert_eq!(tudo.ctes.obter(&k_cte).unwrap().num_de_itens, 1);
}

#[test]
fn linhas_canceladas_e_ruido_ficam_de_fora() {
    let k = chave("1111111111111111111155");
    let mut cancelada = Colunas::default();
    cancelada.chave = k;
    cancelada.valor_item = "100,00".to_string();
    cancelada.cancelada = "Sim".to_string();

    let mut quase_zero = Colunas::default();
    quase_zero.chave = k;
    quase_zero.valor_item = "0,00004".to_string();

    let mut sem_valor = Colunas::default();
    sem_valor.chave = k;
    sem_valor.valor_item = "abc".to_string();

    let mut pair = SummaryPair::vazio();
    pair.acumular_linha(&cancelada);
    pair.acumular_linha(&quase_zero);
    pair.acumular_linha(&sem_valor);
    assert!(pair.nfes.obter(&k).is_none());

    // the boundary case is kept: 0.00005 rounds to one unit
    let mut limite = Colunas::default();
    limite.chave = k;
    limite.valor_item = "0,00005".to_string();
    pair.acumular_linha(&limite);
    let s = pair.nfes.obter(&k).unwrap();
    assert_eq!(s.num_de_itens, 1);
    assert_eq!(s.item_valor_maximo, 1);
}
