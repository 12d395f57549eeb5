use adicionar_info_de_ctes_em_nfes::Chave;
use adicionar_info_de_ctes_em_nfes::Informacoes;

fn chave(prefixo: &str) -> Chave {
    Chave::new(&format!("{:0<44}", prefixo)).unwrap()
}

fn conjunto_de(info: &Informacoes, k: &Chave) -> Vec<Chave> {
    match info.cte_complementar.obter(k) {
        Some(s) => s.itens.clone(),
        None => Vec::new(),
    }
}

fn contem(v: &[Chave], k: &Chave) -> bool {
    v.iter().any(|x| x == k)
}

#[test]
fn fechamento_de_cadeia_vira_clique() {
    // chain A–B, B–C of manifest-typed keys
    let a = chave("1111111111111111111157");
    let b = chave("2222222222222222222257");
    let c = chave("3333333333333333333357");

    let mut info = Informacoes::vazio();
    info.cte_complementar.inserir_par(a, b);
    info.cte_complementar.inserir_par(b, c);

    info.expandir_cte_complementar();

    let sa = conjunto_de(&info, &a);
    let sb = conjunto_de(&info, &b);
    let sc = conjunto_de(&info, &c);
    assert_eq!(sa.len(), 2);
    assert!(contem(&sa, &b) && contem(&sa, &c));
    assert_eq!(sb.len(), 2);
    assert!(contem(&sb, &a) && contem(&sb, &c));
    assert_eq!(sc.len(), 2);
    assert!(contem(&sc, &a) && contem(&sc, &b));
    // no key appears in its own set
    assert!(!contem(&sa, &a) && !contem(&sb, &b) && !contem(&sc, &c));
}

#[test]
fn fechamento_e_idempotente() {
    let a = chave("1111111111111111111157");
    let b = chave("2222222222222222222257");
    let c = chave("3333333333333333333357");
    let solta = chave("4444444444444444444457");

    let mut info = Informacoes::vazio();
    info.cte_complementar.inserir_par(a, b);
    info.cte_complementar.inserir_par(b, c);
    // a self-loop alone: a singleton component, dropped by the closure
    info.cte_complementar.inserir_par(solta, solta);

    info.expandir_cte_complementar();
    let primeira: Vec<(Chave, Vec<Chave>)> = (0..info.cte_complementar.len())
        .map(|i| {
            (
                info.cte_complementar.chave_em(i),
                info.cte_complementar.valor(i).itens.clone(),
            )
        })
        .collect();

    info.expandir_cte_complementar();
    let segunda: Vec<(Chave, Vec<Chave>)> = (0..info.cte_complementar.len())
        .map(|i| {
            (
                info.cte_complementar.chave_em(i),
                info.cte_complementar.valor(i).itens.clone(),
            )
        })
        .collect();

    assert_eq!(primeira.len(), segunda.len());
    for (k, s1) in &primeira {
        let s2 = &segunda.iter().find(|(k2, _)| k2 == k).expect("mesma chave").1;
        assert_eq!(s1.len(), s2.len());
        for x in s1 {
            assert!(contem(s2, x));
        }
    }
    // the singleton component left no entry
    assert!(info.cte_complementar.obter(&solta).is_none());
}

#[test]
fn propagacao_herda_notas_do_complementar() {
    let a = chave("1111111111111111111157");
    let b = chave("2222222222222222222257");
    let x = chave("9999999999999999999955");

    let mut info = Informacoes::vazio();
    info.cte_nfes.inserir_par(a, x);
    info.cte_complementar.inserir_par(a, b);

    info.expandir_cte_complementar();
    info.propagar_nfes_para_cte_complementares();

    let sb = info.cte_nfes.obter(&b).expect("B herdou as notas de A");
    assert!(contem(&sb.itens, &x));
}

#[test]
fn inversao_e_ponta_a_ponta() {
    let a = chave("1111111111111111111157");
    let b = chave("2222222222222222222257");
    let x = chave("9999999999999999999955");

    let linhas_rel = vec![
        format!("{} carrega {}", a.to_text(), x.to_text()),
        "linha sem chave nenhuma".to_string(),
    ];
    let linhas_comp = vec![format!("{};{}", a.to_text(), b.to_text())];

    let info = Informacoes::from_lines(&linhas_rel, &linhas_comp);

    // A owns X, B inherited X, and the inverted index maps X to both.
    assert!(contem(&info.cte_nfes.obter(&a).unwrap().itens, &x));
    assert!(contem(&info.cte_nfes.obter(&b).unwrap().itens, &x));
    let donos = info.nfe_ctes.obter(&x).unwrap();
    assert!(contem(&donos.itens, &a) && contem(&donos.itens, &b));
}

#[test]
fn carga_ignora_linhas_sem_forma() {
    let a = chave("1111111111111111111157");
    let n = chave("9999999999999999999955");

    // first token is invoice-typed: the line is discarded
    let linhas = vec![format!("{} {}", n.to_text(), a.to_text())];
    let info = Informacoes::from_lines(&linhas, &Vec::new());
    assert!(info.cte_nfes.obter(&n).is_none());
    assert!(info.cte_nfes.obter(&a).is_none());
}
