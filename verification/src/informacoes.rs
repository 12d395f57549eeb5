//! The relationship graph: manifest→invoice associations, the symmetric and
//! transitively closed "complementary manifest" relation, and the inverted
//! invoice→manifest index.

use vstd::prelude::*;

use crate::chave::lema_digitos_de_valor;
use crate::chave::lema_so_digitos_identidade;
use crate::chave::eh_digito;
use crate::chave::valor_digitos;
use crate::chave::Chave;
use crate::conjuntos::lema_mapa_dominio;
use crate::texto::chars_do_texto;
use vstd::string::StrSliceExecFns;
use crate::conjuntos::lema_mapa_valor;
use crate::conjuntos::lema_to_set_push;
use crate::conjuntos::KeySet;
use crate::conjuntos::TabelaChave;

verus! {

/// A map from keys to key sets: the shape of every relationship table.
pub type KeyMap = TabelaChave<KeySet>;

/// Well-formedness of a relationship table: distinct keys, duplicate-free
/// value sets.
pub open spec fn km_wf(m: KeyMap) -> bool {
    m.chaves_distintas() && forall|i: int|
        0 <= i < m.entradas@.len() ==> (#[trigger] m.entradas@[i]).1.wf()
}

/// An undirected edge of a relationship map: stored in either direction.
pub open spec fn aresta(g: Map<Chave, Set<Chave>>, a: Chave, b: Chave) -> bool {
    (g.contains_key(a) && g[a].contains(b)) || (g.contains_key(b) && g[b].contains(a))
}

/// A walk along edges of `g`.
pub open spec fn eh_caminho(g: Map<Chave, Set<Chave>>, p: Seq<Chave>) -> bool {
    p.len() >= 2 && forall|i: int| 0 <= i < p.len() - 1 ==> aresta(g, #[trigger] p[i], p[i + 1])
}

/// Two keys joined by some walk of at least one edge.
pub open spec fn conectado(g: Map<Chave, Set<Chave>>, a: Chave, b: Chave) -> bool {
    exists|p: Seq<Chave>| eh_caminho(g, p) && p[0] == a && p.last() == b
}

/// An edge is a walk.
pub proof fn lema_aresta_conectado(g: Map<Chave, Set<Chave>>, a: Chave, b: Chave)
    requires
        aresta(g, a, b),
    ensures
        conectado(g, a, b),
{
    let p = seq![a, b];
    assert(p[0] == a && p.last() == b);
    assert(forall|i: int| 0 <= i < p.len() - 1 ==> aresta(g, #[trigger] p[i], p[i + 1])) by {
        assert(p[0] == a && p[1] == b);
    }
}

/// Connectivity is symmetric: walks reverse.
pub proof fn lema_conectado_sim(g: Map<Chave, Set<Chave>>, a: Chave, b: Chave)
    requires
        conectado(g, a, b),
    ensures
        conectado(g, b, a),
{
    let p = choose|p: Seq<Chave>| eh_caminho(g, p) && p[0] == a && p.last() == b;
    let q = p.reverse();
    assert(q[0] == b && q.last() == a);
    assert forall|i: int| 0 <= i < q.len() - 1 implies aresta(g, #[trigger] q[i], q[i + 1]) by {
        let n = p.len() as int;
        assert(q[i] == p[n - 1 - i] && q[i + 1] == p[n - 2 - i]);
        assert(aresta(g, p[n - 2 - i], p[n - 1 - i]));
    }
    assert(eh_caminho(g, q));
}

/// Connectivity is transitive: walks concatenate.
pub proof fn lema_conectado_trans(g: Map<Chave, Set<Chave>>, a: Chave, b: Chave, c: Chave)
    requires
        conectado(g, a, b),
        conectado(g, b, c),
    ensures
        conectado(g, a, c),
{
    let p = choose|p: Seq<Chave>| eh_caminho(g, p) && p[0] == a && p.last() == b;
    let q = choose|q: Seq<Chave>| eh_caminho(g, q) && q[0] == b && q.last() == c;
    let r = p + q.skip(1);
    assert(r[0] == a);
    assert(r.last() == q.last());
    assert forall|i: int| 0 <= i < r.len() - 1 implies aresta(g, #[trigger] r[i], r[i + 1]) by {
        let np = p.len() as int;
        if i < np - 1 {
            assert(r[i] == p[i] && r[i + 1] == p[i + 1]);
        } else if i == np - 1 {
            assert(r[i] == p[np - 1] && r[i + 1] == q[1]);
            assert(aresta(g, q[0], q[1]));
        } else {
            assert(r[i] == q[i - np + 1] && r[i + 1] == q[i - np + 2]);
            assert(aresta(g, q[i - np + 1], q[i - np + 2]));
        }
    }
    assert(eh_caminho(g, r));
}

/// A set closed under edges.
pub open spec fn fechado(g: Map<Chave, Set<Chave>>, s: Set<Chave>) -> bool {
    forall|x: Chave, y: Chave| #![trigger s.contains(x), aresta(g, x, y)]
        s.contains(x) && aresta(g, x, y) ==> s.contains(y)
}

/// Every vertex of a walk whose start lies in a closed set lies in the set.
proof fn lema_caminho_fechado(g: Map<Chave, Set<Chave>>, s: Set<Chave>, p: Seq<Chave>, i: int)
    requires
        fechado(g, s),
        eh_caminho(g, p),
        s.contains(p[0]),
        0 <= i < p.len(),
    ensures
        s.contains(p[i]),
    decreases i,
{
    if i > 0 {
        lema_caminho_fechado(g, s, p, i - 1);
        assert(aresta(g, p[i - 1], p[i]));
    }
}

/// A closed set absorbs everything connected to one of its members.
pub proof fn lema_fechado_alcanca(g: Map<Chave, Set<Chave>>, s: Set<Chave>, a: Chave, b: Chave)
    requires
        fechado(g, s),
        s.contains(a),
        conectado(g, a, b),
    ensures
        s.contains(b),
{
    let p = choose|p: Seq<Chave>| eh_caminho(g, p) && p[0] == a && p.last() == b;
    lema_caminho_fechado(g, s, p, p.len() - 1);
}

/// Graphs with the same edges have the same walks.
pub proof fn lema_conectado_mesmas_arestas(
    g1: Map<Chave, Set<Chave>>,
    g2: Map<Chave, Set<Chave>>,
    a: Chave,
    b: Chave,
)
    requires
        forall|x: Chave, y: Chave| #[trigger] aresta(g1, x, y) == #[trigger] aresta(g2, x, y),
        conectado(g1, a, b),
    ensures
        conectado(g2, a, b),
{
    let p = choose|p: Seq<Chave>| eh_caminho(g1, p) && p[0] == a && p.last() == b;
    assert(eh_caminho(g2, p));
}

/// A symmetrically stored map: every edge is recorded on both endpoints.
pub open spec fn simetrico(g: Map<Chave, Set<Chave>>) -> bool {
    forall|x: Chave, y: Chave| #![trigger g[x].contains(y)]
        g.contains_key(x) && g[x].contains(y) ==> g.contains_key(y) && g[y].contains(x)
}

/// The closure contract: `r` relates two distinct keys exactly when the
/// original map connects them, and holds a key exactly when it has such a
/// partner.
pub open spec fn espec_fechamento(g: Map<Chave, Set<Chave>>, r: Map<Chave, Set<Chave>>) -> bool {
    &&& forall|a: Chave, b: Chave|
        #![trigger r[a].contains(b)]
        #![trigger conectado(g, a, b)]
        (r.contains_key(a) && r[a].contains(b)) <==> (a != b && conectado(g, a, b))
    &&& forall|a: Chave| #[trigger]
        r.contains_key(a) <==> exists|b: Chave| a != b && #[trigger] conectado(g, a, b)
}

/// The relationship graph: manifest→invoice ownership, the complementary
/// manifest relation, and the inverted invoice→manifest index.
pub struct Informacoes {
    /// Invoice key → manifests that carry it (built by inversion).
    pub nfe_ctes: KeyMap,
    /// Manifest key → invoice keys it carries.
    pub cte_nfes: KeyMap,
    /// Manifest key → its complementary manifests.
    pub cte_complementar: KeyMap,
    /// Row count of the last enrichment pass, kept for reporting.
    pub numero_total_de_linhas: usize,
}

/// All three tables are well-formed.
pub open spec fn info_wf(info: Informacoes) -> bool {
    km_wf(info.nfe_ctes) && km_wf(info.cte_nfes) && km_wf(info.cte_complementar)
}

impl Informacoes {
    /// The empty graph.
    pub fn vazio() -> (r: Informacoes)
        ensures
            info_wf(r),
            r.nfe_ctes@ == Map::<Chave, Set<Chave>>::empty(),
            r.cte_nfes@ == Map::<Chave, Set<Chave>>::empty(),
            r.cte_complementar@ == Map::<Chave, Set<Chave>>::empty(),
            r.numero_total_de_linhas == 0,
    {
        Informacoes {
            nfe_ctes: TabelaChave::vazia(),
            cte_nfes: TabelaChave::vazia(),
            cte_complementar: TabelaChave::vazia(),
            numero_total_de_linhas: 0,
        }
    }
}

impl TabelaChave<KeySet> {
    /// Adds `v` to the set at `k`, creating the entry when absent.
    pub fn inserir_par(&mut self, k: Chave, v: Chave)
        requires
            km_wf(*old(self)),
        ensures
            km_wf(*final(self)),
            final(self)@ == old(self)@.insert(
                k,
                (if old(self)@.contains_key(k) {
                    old(self)@[k]
                } else {
                    Set::<Chave>::empty()
                }).insert(v),
            ),
    {
        proof {
            lema_mapa_dominio(self.entradas@, k);
        }
        match self.posicao(&k) {
            Option::Some(i) => {
                proof {
                    lema_mapa_valor(self.entradas@, i as int);
                }
                let mut novo = self.valor(i).clonar();
                novo.inserir(v);
                self.definir(i, novo);
                proof {
                    assert forall|t: int| 0 <= t < self.entradas@.len() implies (
                    #[trigger] self.entradas@[t]).1.wf() by {
                        if t != i {
                            assert(self.entradas@[t] == old(self).entradas@[t]);
                        }
                    }
                }
            },
            Option::None => {
                let mut novo = KeySet::vazio();
                novo.inserir(v);
                self.empurrar(k, novo);
                proof {
                    assert forall|t: int| 0 <= t < self.entradas@.len() implies (
                    #[trigger] self.entradas@[t]).1.wf() by {
                        if t < self.entradas@.len() - 1 {
                            assert(self.entradas@[t] == old(self).entradas@[t]);
                        }
                    }
                    assert(Set::<Chave>::empty().insert(v) =~= novo@);
                }
            },
        }
    }

    /// Unions `outros` into the set at `k`, creating the entry when absent.
    pub fn estender_em(&mut self, k: Chave, outros: &KeySet)
        requires
            km_wf(*old(self)),
        ensures
            km_wf(*final(self)),
            final(self)@ == old(self)@.insert(
                k,
                (if old(self)@.contains_key(k) {
                    old(self)@[k]
                } else {
                    Set::<Chave>::empty()
                }) + outros@,
            ),
    {
        proof {
            lema_mapa_dominio(self.entradas@, k);
        }
        match self.posicao(&k) {
            Option::Some(i) => {
                proof {
                    lema_mapa_valor(self.entradas@, i as int);
                }
                let mut novo = self.valor(i).clonar();
                novo.estender(outros);
                self.definir(i, novo);
                proof {
                    assert forall|t: int| 0 <= t < self.entradas@.len() implies (
                    #[trigger] self.entradas@[t]).1.wf() by {
                        if t != i {
                            assert(self.entradas@[t] == old(self).entradas@[t]);
                        }
                    }
                }
            },
            Option::None => {
                let mut novo = KeySet::vazio();
                novo.estender(outros);
                self.empurrar(k, novo);
                proof {
                    assert forall|t: int| 0 <= t < self.entradas@.len() implies (
                    #[trigger] self.entradas@[t]).1.wf() by {
                        if t < self.entradas@.len() - 1 {
                            assert(self.entradas@[t] == old(self).entradas@[t]);
                        }
                    }
                    assert(Set::<Chave>::empty() + outros@ =~= novo@);
                }
            },
        }
    }
}


/// The pairs stored in the first `e` entries, plus the first `t` items of
/// entry `e`: the pairs a symmetrization pass has already consumed.
pub open spec fn par_processado(
    es: Seq<(Chave, KeySet)>,
    e: int,
    t: int,
    a: Chave,
    b: Chave,
) -> bool {
    exists|i: int, j: int|
        0 <= i <= e && 0 <= j && (i < e || j < t) && i < es.len() && j < es[i].1.itens@.len()
            && es[i].0 == a && #[trigger] es[i].1.itens@[j] == b
}

/// Builds the symmetric adjacency of a relationship map: an edge is stored
/// on both endpoints exactly when the map stores it on either.
fn simetrizar(mapa: &KeyMap) -> (adj: KeyMap)
    requires
        km_wf(*mapa),
    ensures
        km_wf(adj),
        simetrico(adj@),
        forall|a: Chave, b: Chave|
            #![trigger adj@[a].contains(b)]
            #![trigger aresta(mapa@, a, b)]
            (adj@.contains_key(a) && adj@[a].contains(b)) <==> aresta(mapa@, a, b),
{
    let ghost es = mapa.entradas@;
    let mut adj: KeyMap = TabelaChave::vazia();
    let ne = mapa.len();
    let mut e: usize = 0;
    while e < ne
        invariant
            e <= ne,
            ne == es.len(),
            es == mapa.entradas@,
            km_wf(*mapa),
            km_wf(adj),
            forall|a: Chave, b: Chave|
                #![trigger adj@[a].contains(b)]
                #![trigger par_processado(es, e as int, 0, a, b)]
                #![trigger par_processado(es, e as int, 0, b, a)]
                (adj@.contains_key(a) && adj@[a].contains(b)) <==> (par_processado(
                    es,
                    e as int,
                    0,
                    a,
                    b,
                ) || par_processado(es, e as int, 0, b, a)),
        decreases ne - e,
    {
        let u = mapa.chave_em(e);
        let nt = mapa.valor(e).itens.len();
        let mut t: usize = 0;
        while t < nt
            invariant
                t <= nt,
                e < ne,
                ne == es.len(),
                es == mapa.entradas@,
                nt == es[e as int].1.itens@.len(),
                u == es[e as int].0,
                km_wf(*mapa),
                km_wf(adj),
                forall|a: Chave, b: Chave|
                    #![trigger adj@[a].contains(b)]
                    #![trigger par_processado(es, e as int, t as int, a, b)]
                    #![trigger par_processado(es, e as int, t as int, b, a)]
                    (adj@.contains_key(a) && adj@[a].contains(b)) <==> (par_processado(
                        es,
                        e as int,
                        t as int,
                        a,
                        b,
                    ) || par_processado(es, e as int, t as int, b, a)),
            decreases nt - t,
        {
            let v = mapa.valor(e).itens[t];
            let ghost adj0 = adj@;
            adj.inserir_par(u, v);
            let ghost adj1 = adj@;
            adj.inserir_par(v, u);
            proof {
                let ei = e as int;
                let ti = t as int;
                assert forall|a: Chave, b: Chave|
                    #![trigger adj@[a].contains(b)]
                    #![trigger par_processado(es, ei, ti + 1, a, b)]
                    #![trigger par_processado(es, ei, ti + 1, b, a)]
                    (adj@.contains_key(a) && adj@[a].contains(b)) <==> (par_processado(
                        es,
                        ei,
                        ti + 1,
                        a,
                        b,
                    ) || par_processado(es, ei, ti + 1, b, a)) by {
                    let novo_ab = (a == u && b == v) || (a == v && b == u);
                    // The two inserts add exactly the edges (u,v) and (v,u).
                    assert((adj@.contains_key(a) && adj@[a].contains(b)) <==> ((
                    adj0.contains_key(a) && adj0[a].contains(b)) || novo_ab)) by {
                        if a == v {
                            if u == v {
                                assert(adj1[a] == (if adj0.contains_key(u) {
                                    adj0[u]
                                } else {
                                    Set::<Chave>::empty()
                                }).insert(v));
                            }
                            assert(adj@[a] == (if adj1.contains_key(v) {
                                adj1[v]
                            } else {
                                Set::<Chave>::empty()
                            }).insert(u));
                            if u != v && adj0.contains_key(v) {
                                assert(adj1[v] == adj0[v]);
                            }
                        } else if a == u {
                            assert(adj@[a] == adj1[a]);
                            assert(adj1[a] == (if adj0.contains_key(u) {
                                adj0[u]
                            } else {
                                Set::<Chave>::empty()
                            }).insert(v));
                        } else {
                            if adj0.contains_key(a) {
                                assert(adj@[a] == adj0[a]);
                            }
                        }
                    }
                    // The processed-pair predicate gains exactly the pair (u,v).
                    assert(par_processado(es, ei, ti + 1, a, b) <==> (par_processado(
                        es,
                        ei,
                        ti,
                        a,
                        b,
                    ) || (a == u && b == v))) by {
                        if par_processado(es, ei, ti + 1, a, b) {
                            let (i, j) = choose|i: int, j: int|
                                0 <= i <= ei && 0 <= j && (i < ei || j < ti + 1) && i < es.len()
                                    && j < es[i].1.itens@.len() && es[i].0 == a
                                    && #[trigger] es[i].1.itens@[j] == b;
                            if !(i == ei && j == ti) {
                                assert(par_processado(es, ei, ti, a, b));
                            }
                        }
                        if par_processado(es, ei, ti, a, b) {
                            let (i, j) = choose|i: int, j: int|
                                0 <= i <= ei && 0 <= j && (i < ei || j < ti) && i < es.len() && j
                                    < es[i].1.itens@.len() && es[i].0 == a
                                    && #[trigger] es[i].1.itens@[j] == b;
                            assert(par_processado(es, ei, ti + 1, a, b));
                        }
                        if a == u && b == v {
                            assert(es[ei].0 == a && #[trigger] es[ei].1.itens@[ti] == b);
                            assert(par_processado(es, ei, ti + 1, a, b));
                        }
                    }
                    assert(par_processado(es, ei, ti + 1, b, a) <==> (par_processado(
                        es,
                        ei,
                        ti,
                        b,
                        a,
                    ) || (b == u && a == v))) by {
                        if par_processado(es, ei, ti + 1, b, a) {
                            let (i, j) = choose|i: int, j: int|
                                0 <= i <= ei && 0 <= j && (i < ei || j < ti + 1) && i < es.len()
                                    && j < es[i].1.itens@.len() && es[i].0 == b
                                    && #[trigger] es[i].1.itens@[j] == a;
                            if !(i == ei && j == ti) {
                                assert(par_processado(es, ei, ti, b, a));
                            }
                        }
                        if par_processado(es, ei, ti, b, a) {
                            let (i, j) = choose|i: int, j: int|
                                0 <= i <= ei && 0 <= j && (i < ei || j < ti) && i < es.len() && j
                                    < es[i].1.itens@.len() && es[i].0 == b
                                    && #[trigger] es[i].1.itens@[j] == a;
                            assert(par_processado(es, ei, ti + 1, b, a));
                        }
                        if b == u && a == v {
                            assert(es[ei].0 == b && #[trigger] es[ei].1.itens@[ti] == a);
                            assert(par_processado(es, ei, ti + 1, b, a));
                        }
                    }
                    // The invariant instance for the pre-state.
                    assert((adj0.contains_key(a) && adj0[a].contains(b)) <==> (par_processado(
                        es,
                        ei,
                        ti,
                        a,
                        b,
                    ) || par_processado(es, ei, ti, b, a)));
                }
            }
            t = t + 1;
        }
        proof {
            let ei = e as int;
            assert forall|a: Chave, b: Chave| #[trigger] par_processado(es, ei + 1, 0, a, b)
                <==> par_processado(es, ei, nt as int, a, b) by {
                if par_processado(es, ei + 1, 0, a, b) {
                    let (i, j) = choose|i: int, j: int|
                        0 <= i <= ei + 1 && 0 <= j && (i < ei + 1 || j < 0) && i < es.len() && j
                            < es[i].1.itens@.len() && es[i].0 == a
                            && #[trigger] es[i].1.itens@[j] == b;
                    assert(i < ei || j < nt as int);
                    assert(par_processado(es, ei, nt as int, a, b));
                }
                if par_processado(es, ei, nt as int, a, b) {
                    let (i, j) = choose|i: int, j: int|
                        0 <= i <= ei && 0 <= j && (i < ei || j < nt as int) && i < es.len() && j
                            < es[i].1.itens@.len() && es[i].0 == a
                            && #[trigger] es[i].1.itens@[j] == b;
                    assert(i < ei + 1 || j < 0);
                    assert(par_processado(es, ei + 1, 0, a, b));
                }
            }
        }
        e = e + 1;
    }
    proof {
        let nei = ne as int;
        assert forall|a: Chave, b: Chave| #[trigger] aresta(mapa@, a, b) <==> (
        #[trigger] par_processado(es, nei, 0, a, b) || par_processado(es, nei, 0, b, a)) by {
            lema_mapa_dominio(es, a);
            lema_mapa_dominio(es, b);
            if mapa@.contains_key(a) && mapa@[a].contains(b) {
                let i = choose|i: int| 0 <= i < es.len() && (#[trigger] es[i]).0 == a;
                lema_mapa_valor(es, i);
                assert(es[i].1.itens@.to_set().contains(b));
                let j = choose|j: int| 0 <= j < es[i].1.itens@.len() && es[i].1.itens@[j] == b;
                assert(#[trigger] es[i].1.itens@[j] == b);
                assert(par_processado(es, nei, 0, a, b));
            }
            if mapa@.contains_key(b) && mapa@[b].contains(a) {
                let i = choose|i: int| 0 <= i < es.len() && (#[trigger] es[i]).0 == b;
                lema_mapa_valor(es, i);
                assert(es[i].1.itens@.to_set().contains(a));
                let j = choose|j: int| 0 <= j < es[i].1.itens@.len() && es[i].1.itens@[j] == a;
                assert(#[trigger] es[i].1.itens@[j] == a);
                assert(par_processado(es, nei, 0, b, a));
            }
            if par_processado(es, nei, 0, a, b) {
                let (i, j) = choose|i: int, j: int|
                    0 <= i <= nei && 0 <= j && (i < nei || j < 0) && i < es.len() && j
                        < es[i].1.itens@.len() && es[i].0 == a && #[trigger] es[i].1.itens@[j]
                        == b;
                lema_mapa_valor(es, i);
                assert(es[i].1.itens@.contains(b));
                assert(es[i].1.itens@.to_set().contains(b));
                assert(mapa@.contains_key(a) && mapa@[a].contains(b));
            }
            if par_processado(es, nei, 0, b, a) {
                let (i, j) = choose|i: int, j: int|
                    0 <= i <= nei && 0 <= j && (i < nei || j < 0) && i < es.len() && j
                        < es[i].1.itens@.len() && es[i].0 == b && #[trigger] es[i].1.itens@[j]
                        == a;
                lema_mapa_valor(es, i);
                assert(es[i].1.itens@.contains(a));
                assert(es[i].1.itens@.to_set().contains(a));
                assert(mapa@.contains_key(b) && mapa@[b].contains(a));
            }
        }
        assert forall|a: Chave, b: Chave|
            #![trigger adj@[a].contains(b)]
            #![trigger aresta(mapa@, a, b)]
            (adj@.contains_key(a) && adj@[a].contains(b)) <==> aresta(mapa@, a, b) by {
            assert((adj@.contains_key(a) && adj@[a].contains(b)) <==> (par_processado(
                es,
                nei,
                0,
                a,
                b,
            ) || par_processado(es, nei, 0, b, a)));
        }
        assert forall|x: Chave, y: Chave|
            adj@.contains_key(x) && #[trigger] adj@[x].contains(y) implies adj@.contains_key(y)
            && #[trigger] adj@[y].contains(x) by {
            assert(aresta(mapa@, x, y));
            assert(aresta(mapa@, y, x));
        }
    }
    adj
}


/// Reachability from a starting key: the key itself, or anything some walk
/// joins to it.
pub open spec fn alcanca(g: Map<Chave, Set<Chave>>, inicio: Chave, x: Chave) -> bool {
    x == inicio || conectado(g, inicio, x)
}

/// Collects the connected component of `inicio` by a depth-first walk with
/// an explicit stack, marking everything it finds as visited.
fn componente(adj: &KeyMap, inicio: Chave, visitados: &mut KeySet) -> (grupo: Vec<Chave>)
    requires
        km_wf(*adj),
        simetrico(adj@),
        old(visitados).wf(),
        fechado(adj@, old(visitados)@),
        !old(visitados)@.contains(inicio),
    ensures
        final(visitados).wf(),
        grupo@.no_duplicates(),
        final(visitados)@ == old(visitados)@ + grupo@.to_set(),
        forall|x: Chave| #[trigger] grupo@.to_set().contains(x) ==> !old(visitados)@.contains(x),
        forall|x: Chave| #[trigger] grupo@.to_set().contains(x) <==> alcanca(adj@, inicio, x),
        fechado(adj@, final(visitados)@),
{
    let mut grupo: Vec<Chave> = Vec::new();
    let mut pilha: Vec<Chave> = Vec::new();
    pilha.push(inicio);
    proof {
        assert(visitados@ =~= old(visitados)@ + grupo@.to_set());
        assert(pilha@[0] == inicio);
        assert(pilha@.contains(inicio));
    }
    while pilha.len() > 0
        invariant
            km_wf(*adj),
            simetrico(adj@),
            visitados.wf(),
            grupo@.no_duplicates(),
            visitados@ == old(visitados)@ + grupo@.to_set(),
            fechado(adj@, old(visitados)@),
            !old(visitados)@.contains(inicio),
            forall|x: Chave| #[trigger]
                grupo@.to_set().contains(x) ==> !old(visitados)@.contains(x) && alcanca(
                    adj@,
                    inicio,
                    x,
                ),
            forall|j: int| 0 <= j < pilha@.len() ==> alcanca(adj@, inicio, #[trigger] pilha@[j]),
            forall|j: int|
                0 <= j < pilha@.len() ==> adj@.contains_key(#[trigger] pilha@[j]) || pilha@[j]
                    == inicio,
            forall|x: Chave| #[trigger]
                grupo@.to_set().contains(x) ==> adj@.contains_key(x) || x == inicio,
            forall|x: Chave, y: Chave|
                #![trigger visitados@.contains(x), aresta(adj@, x, y)]
                visitados@.contains(x) && aresta(adj@, x, y) ==> visitados@.contains(y)
                    || pilha@.contains(y),
            grupo@.to_set().contains(inicio) || pilha@.contains(inicio),
            grupo@.len() <= adj.entradas@.len() + 1,
        decreases adj.entradas@.len() + 2 - grupo@.len(), pilha@.len(),
    {
        let ghost pilha0 = pilha@;
        let atual = match pilha.pop() {
            Option::Some(c) => c,
            Option::None => {
                proof {
                    assert(false);
                }
                inicio
            },
        };
        proof {
            assert(atual == pilha0.last());
            assert(pilha@ == pilha0.drop_last());
        }
        if !visitados.contem(&atual) {
            visitados.inserir(atual);
            proof {
                assert(!grupo@.to_set().contains(atual));
                assert(!grupo@.contains(atual));
            }
            let ghost grupo0 = grupo@;
            grupo.push(atual);
            proof {
                lema_to_set_push(grupo0, atual);
                assert(grupo@.drop_last() =~= grupo0);
                assert(visitados@ =~= old(visitados)@ + grupo@.to_set());
                // the group stays within the adjacency keys (plus the start)
                assert(grupo@.to_set().len() == grupo@.len()) by {
                    grupo@.unique_seq_to_set();
                }
                assert(grupo@.to_set().subset_of(adj@.dom().insert(inicio)));
                crate::conjuntos::lema_dominio_cardinalidade(adj.entradas@);
                vstd::set_lib::lemma_len_subset(
                    grupo@.to_set(),
                    adj@.dom().insert(inicio),
                );
                assert(grupo@.len() <= adj.entradas@.len() + 1);
            }
            match adj.obter(&atual) {
                Option::Some(vizinhos) => {
                    let nv = vizinhos.itens.len();
                    let ghost pilha1 = pilha@;
                    let mut k: usize = 0;
                    while k < nv
                        invariant
                            k <= nv,
                            nv == vizinhos.itens@.len(),
                            vizinhos@ == adj@[atual],
                            adj@.contains_key(atual),
                            km_wf(*adj),
                            simetrico(adj@),
                            alcanca(adj@, inicio, atual),
                            pilha@ == pilha1 + vizinhos.itens@.take(k as int),
                        decreases nv - k,
                    {
                        let b = vizinhos.itens[k];
                        proof {
                            assert(vizinhos.itens@.contains(b));
                            assert(vizinhos.itens@.to_set().contains(b));
                            assert(adj@[atual].contains(b));
                            assert(aresta(adj@, atual, b));
                            lema_aresta_conectado(adj@, atual, b);
                            if atual != inicio {
                                lema_conectado_trans(adj@, inicio, atual, b);
                            }
                        }
                        pilha.push(b);
                        proof {
                            assert(pilha@ =~= pilha1 + vizinhos.itens@.take(k as int + 1));
                        }
                        k = k + 1;
                    }
                    proof {
                        assert(vizinhos.itens@.take(nv as int) =~= vizinhos.itens@);
                        // every element of the old stack is still there
                        assert forall|y: Chave| pilha1.contains(y) implies pilha@.contains(
                            y,
                        ) by {
                            let j = choose|j: int| 0 <= j < pilha1.len() && pilha1[j] == y;
                            assert(pilha@[j] == y);
                        }
                        // the stack elements are reachable and are adjacency keys
                        assert forall|j: int| 0 <= j < pilha@.len() implies alcanca(
                            adj@,
                            inicio,
                            #[trigger] pilha@[j],
                        ) && (adj@.contains_key(pilha@[j]) || pilha@[j] == inicio) by {
                            if j < pilha1.len() {
                                assert(pilha1[j] == pilha@[j]);
                                assert(pilha0.drop_last()[j] == pilha1[j]);
                            } else {
                                let b = pilha@[j];
                                assert(b == vizinhos.itens@[j - pilha1.len()]);
                                assert(vizinhos.itens@.to_set().contains(b));
                                assert(adj@[atual].contains(b));
                                assert(aresta(adj@, atual, b));
                                lema_aresta_conectado(adj@, atual, b);
                                if atual != inicio {
                                    lema_conectado_trans(adj@, inicio, atual, b);
                                }
                            }
                        }
                        if !grupo@.to_set().contains(inicio) {
                            assert(pilha0.contains(inicio));
                            let j = choose|j: int| 0 <= j < pilha0.len() && pilha0[j] == inicio;
                            if j < pilha0.len() - 1 {
                                assert(pilha1[j] == inicio);
                                assert(pilha1.contains(inicio));
                            } else {
                                assert(atual == inicio);
                            }
                        }
                        // closure: neighbours of the newly visited key are stacked
                        assert forall|x: Chave, y: Chave|
                            visitados@.contains(x) && aresta(adj@, x, y) implies visitados@.contains(
                            y,
                        ) || pilha@.contains(y) by {
                            if x == atual {
                                assert(adj@[atual].contains(y)) by {
                                    if !(adj@.contains_key(atual) && adj@[atual].contains(y)) {
                                        assert(adj@.contains_key(y) && adj@[y].contains(atual));
                                        assert(adj@[atual].contains(y));
                                    }
                                }
                                assert(vizinhos.itens@.to_set().contains(y));
                                let j = choose|j: int|
                                    0 <= j < vizinhos.itens@.len() && vizinhos.itens@[j] == y;
                                assert(pilha@[pilha1.len() + j] == y);
                            } else if old(visitados)@.contains(x) || grupo@.drop_last().to_set().contains(x) {
                                assert(visitados@.contains(x));
                                if !visitados@.contains(y) {
                                    assert(pilha0.contains(y));
                                    let j = choose|j: int|
                                        0 <= j < pilha0.len() && pilha0[j] == y;
                                    if j < pilha0.len() - 1 {
                                        assert(pilha1[j] == y);
                                        assert(pilha1.contains(y));
                                    } else {
                                        assert(y == atual);
                                    }
                                }
                            }
                        }
                    }
                },
                Option::None => {
                    proof {
                        if !grupo@.to_set().contains(inicio) {
                            assert(pilha0.contains(inicio));
                            let j = choose|j: int| 0 <= j < pilha0.len() && pilha0[j] == inicio;
                            if j < pilha0.len() - 1 {
                                assert(pilha@[j] == inicio);
                                assert(pilha@.contains(inicio));
                            } else {
                                assert(atual == inicio);
                            }
                        }
                        assert forall|x: Chave, y: Chave|
                            visitados@.contains(x) && aresta(adj@, x, y) implies visitados@.contains(
                            y,
                        ) || pilha@.contains(y) by {
                            if x == atual {
                                assert(!adj@.contains_key(atual));
                                if adj@.contains_key(y) && adj@[y].contains(atual) {
                                    assert(adj@.contains_key(atual));
                                }
                                assert(!aresta(adj@, x, y));
                            } else {
                                if !visitados@.contains(y) && visitados@.contains(x) && aresta(
                                    adj@,
                                    x,
                                    y,
                                ) {
                                    assert(pilha0.contains(y));
                                    let j = choose|j: int|
                                        0 <= j < pilha0.len() && pilha0[j] == y;
                                    if j < pilha0.len() - 1 {
                                        assert(pilha@[j] == y);
                                    } else {
                                        assert(y == atual);
                                    }
                                }
                            }
                        }
                    }
                },
            }
        } else {
            proof {
                assert forall|x: Chave, y: Chave|
                    visitados@.contains(x) && aresta(adj@, x, y) implies visitados@.contains(y)
                    || pilha@.contains(y) by {
                    if !visitados@.contains(y) && visitados@.contains(x) && aresta(adj@, x, y) {
                        assert(pilha0.contains(y));
                        let j = choose|j: int| 0 <= j < pilha0.len() && pilha0[j] == y;
                        if j < pilha0.len() - 1 {
                            assert(pilha@[j] == y);
                        } else {
                            assert(y == atual);
                        }
                    }
                }
                if !grupo@.to_set().contains(inicio) {
                    assert(pilha0.contains(inicio));
                    let j = choose|j: int| 0 <= j < pilha0.len() && pilha0[j] == inicio;
                    if j < pilha0.len() - 1 {
                        assert(pilha@[j] == inicio);
                    } else {
                        assert(atual == inicio);
                        assert(visitados@.contains(inicio));
                        assert(grupo@.to_set().contains(inicio));
                    }
                }
            }
        }
    }
    proof {
        // completeness: everything reachable landed in this group
        assert forall|x: Chave| alcanca(adj@, inicio, x) implies #[trigger] grupo@.to_set().contains(
            x,
        ) by {
            if x != inicio {
                lema_fechado_alcanca(adj@, visitados@, inicio, x);
                if old(visitados)@.contains(x) {
                    lema_conectado_sim(adj@, inicio, x);
                    lema_fechado_alcanca(adj@, old(visitados)@, x, inicio);
                    assert(false);
                }
            }
        }
    }
    grupo
}


impl Informacoes {
    /// Replaces the complementary-manifest relation by its transitive
    /// closure: every connected component of the stored edges becomes a
    /// clique, singleton components disappear, and afterwards two distinct
    /// keys are related exactly when a chain of complement edges joined
    /// them.
    #[verifier::rlimit(60)]
    pub fn expandir_cte_complementar(&mut self)
        requires
            info_wf(*old(self)),
        ensures
            info_wf(*final(self)),
            espec_fechamento(old(self).cte_complementar@, final(self).cte_complementar@),
            final(self).cte_nfes == old(self).cte_nfes,
            final(self).nfe_ctes == old(self).nfe_ctes,
            final(self).numero_total_de_linhas == old(self).numero_total_de_linhas,
    {
        let ghost g0 = self.cte_complementar@;
        let adj = simetrizar(&self.cte_complementar);
        proof {
            assert forall|a: Chave, b: Chave| #[trigger] aresta(adj@, a, b) == aresta(
                g0,
                a,
                b,
            ) by {
                assert(aresta(g0, a, b) == aresta(g0, b, a));
                assert((adj@.contains_key(a) && adj@[a].contains(b)) <==> aresta(g0, a, b));
                assert((adj@.contains_key(b) && adj@[b].contains(a)) <==> aresta(g0, b, a));
            }
        }
        let chaves_adj = adj.chaves();
        let mut visitados = KeySet::vazio();
        let mut novo: KeyMap = TabelaChave::vazia();
        let nc = chaves_adj.len();
        let mut c: usize = 0;
        proof {
            assert(fechado(adj@, visitados@));
        }
        while c < nc
            invariant
                c <= nc,
                nc == chaves_adj@.len(),
                km_wf(adj),
                simetrico(adj@),
                forall|a: Chave, b: Chave| #[trigger] aresta(adj@, a, b) == aresta(g0, a, b),
                forall|a: Chave, b: Chave|
                    #![trigger adj@[a].contains(b)]
                    (adj@.contains_key(a) && adj@[a].contains(b)) <==> aresta(g0, a, b),
                forall|k: Chave| #[trigger] adj@.contains_key(k) <==> chaves_adj@.contains(k),
                forall|j: int| 0 <= j < c ==> visitados@.contains(#[trigger] chaves_adj@[j]),
                visitados.wf(),
                fechado(adj@, visitados@),
                km_wf(novo),
                forall|k: Chave| #[trigger] novo@.contains_key(k) ==> visitados@.contains(k),
                forall|a: Chave, b: Chave|
                    #![trigger novo@[a].contains(b)]
                    #![trigger conectado(adj@, a, b)]
                    (novo@.contains_key(a) && novo@[a].contains(b)) <==> (visitados@.contains(a)
                        && a != b && conectado(adj@, a, b)),
                forall|a: Chave| #[trigger]
                    novo@.contains_key(a) <==> (visitados@.contains(a) && exists|b: Chave|
                        a != b && #[trigger] conectado(adj@, a, b)),
            decreases nc - c,
        {
            let k = chaves_adj[c];
            if !visitados.contem(&k) {
                let ghost vis0 = visitados@;
                let grupo = componente(&adj, k, &mut visitados);
                let ghost gs = grupo@.to_set();
                let ghost vis1 = visitados@;
                let ghost novo0 = novo@;
                let ng = grupo.len();
                if ng > 1 {
                    let mut m: usize = 0;
                    while m < ng
                        invariant
                            m <= ng,
                            ng == grupo@.len(),
                            ng > 1,
                            gs == grupo@.to_set(),
                            grupo@.no_duplicates(),
                            km_wf(adj),
                            simetrico(adj@),
                            forall|x: Chave| #[trigger] gs.contains(x) ==> !vis0.contains(x),
                            forall|x: Chave| #[trigger] gs.contains(x) <==> alcanca(adj@, k, x),
                            km_wf(novo),
                            forall|kk: Chave| #[trigger] novo0.contains_key(kk) ==> vis0.contains(
                                kk,
                            ),
                            forall|kk: Chave| #[trigger]
                                novo@.contains_key(kk) <==> (novo0.contains_key(kk)
                                    || grupo@.take(m as int).to_set().contains(kk)),
                            forall|a: Chave, b: Chave|
                                #![trigger novo@[a].contains(b)]
                                #![trigger novo0[a].contains(b)]
                                (novo@.contains_key(a) && novo@[a].contains(b)) <==> ((
                                novo0.contains_key(a) && novo0[a].contains(b)) || (grupo@.take(
                                    m as int,
                                ).to_set().contains(a) && gs.contains(b) && a != b)),
                        decreases ng - m,
                    {
                        let alvo = grupo[m];
                        let mut outros = KeySet::vazio();
                        let mut t: usize = 0;
                        while t < ng
                            invariant
                                t <= ng,
                                m < ng,
                                ng == grupo@.len(),
                                alvo == grupo@[m as int],
                                grupo@.no_duplicates(),
                                outros.wf(),
                                outros@ == grupo@.take(t as int).to_set().remove(grupo@[m as int]),
                            decreases ng - t,
                        {
                            if t != m {
                                outros.inserir(grupo[t]);
                            }
                            proof {
                                lema_to_set_push(grupo@.take(t as int), grupo@[t as int]);
                                assert(grupo@.take(t as int + 1) =~= grupo@.take(t as int).push(
                                    grupo@[t as int],
                                ));
                                if t != m {
                                    assert(grupo@[t as int] != grupo@[m as int]);
                                    assert(outros@ =~= grupo@.take(t as int + 1).to_set().remove(
                                        grupo@[m as int],
                                    ));
                                } else {
                                    assert(outros@ =~= grupo@.take(t as int + 1).to_set().remove(
                                        grupo@[m as int],
                                    ));
                                }
                            }
                            t = t + 1;
                        }
                        proof {
                            assert(grupo@.take(ng as int) =~= grupo@);
                            assert(outros@ =~= gs.remove(alvo));
                            // the key written now is fresh in `novo`
                            assert(gs.contains(alvo)) by {
                                assert(grupo@[m as int] == alvo);
                                assert(grupo@.contains(alvo));
                            }
                            assert(!novo@.contains_key(alvo)) by {
                                if novo0.contains_key(alvo) {
                                    assert(vis0.contains(alvo));
                                }
                                if grupo@.take(m as int).to_set().contains(alvo) {
                                    let j = choose|j: int|
                                        0 <= j < m as int && grupo@.take(m as int)[j] == alvo;
                                    assert(grupo@[j] == grupo@[m as int]);
                                }
                            }
                        }
                        let ghost novo_antes = novo@;
                        novo.empurrar(alvo, outros);
                        proof {
                            lema_to_set_push(grupo@.take(m as int), alvo);
                            assert(grupo@.take(m as int + 1) =~= grupo@.take(m as int).push(alvo));
                            assert forall|a: Chave, b: Chave|
                                #![trigger novo@[a].contains(b)]
                                #![trigger novo0[a].contains(b)]
                                (novo@.contains_key(a) && novo@[a].contains(b)) <==> ((
                                novo0.contains_key(a) && novo0[a].contains(b)) || (grupo@.take(
                                    m as int + 1,
                                ).to_set().contains(a) && gs.contains(b) && a != b)) by {
                                if a == alvo {
                                    assert(novo@[a] == gs.remove(alvo));
                                } else {
                                    if novo@.contains_key(a) {
                                        assert(novo@[a] == novo_antes[a]);
                                    }
                                }
                            }
                        }
                        m = m + 1;
                    }
                }
                proof {
                    if ng > 1 {
                        assert(grupo@.take(ng as int) =~= grupo@);
                    }
                    assert(vis1 =~= vis0 + gs);
                    // a member of the component is connected to every other member
                    assert forall|a: Chave, b: Chave|
                        gs.contains(a) && gs.contains(b) && a != b implies #[trigger] conectado(
                        adj@,
                        a,
                        b,
                    ) by {
                        if a == k {
                            assert(alcanca(adj@, k, b));
                        } else {
                            assert(alcanca(adj@, k, a));
                            lema_conectado_sim(adj@, k, a);
                            if b == k {
                            } else {
                                lema_conectado_trans(adj@, a, k, b);
                            }
                        }
                    }
                    // anything connected to a member is itself a member
                    assert forall|a: Chave, b: Chave|
                        gs.contains(a) && a != b && #[trigger] conectado(adj@, a, b) implies gs.contains(
                        b,
                    ) by {
                        if a == k {
                            assert(alcanca(adj@, k, b));
                        } else {
                            lema_conectado_trans(adj@, k, a, b);
                        }
                    }
                    // the member relation after this round
                    assert forall|a: Chave, b: Chave|
                        #![trigger novo@[a].contains(b)]
                        #![trigger conectado(adj@, a, b)]
                        (novo@.contains_key(a) && novo@[a].contains(b)) <==> (vis1.contains(a) && a
                            != b && conectado(adj@, a, b)) by {
                        if gs.contains(a) {
                            if ng == 1 {
                                assert(grupo@[0] == k);
                                assert(grupo@ =~= Seq::<Chave>::empty().push(grupo@[0]));
                                lema_to_set_push(Seq::<Chave>::empty(), grupo@[0]);
                                assert(gs =~= Set::<Chave>::empty().insert(grupo@[0]));
                                assert(a == k);
                                if conectado(adj@, a, b) && a != b {
                                    assert(gs.contains(b));
                                    assert(false);
                                }
                                assert(!novo@.contains_key(a)) by {
                                    if novo0.contains_key(a) {
                                        assert(vis0.contains(a));
                                    }
                                }
                            } else {
                                assert(novo@.contains_key(a) && novo@[a].contains(b) <==> (
                                gs.contains(a) && gs.contains(b) && a != b)) by {
                                    if novo0.contains_key(a) {
                                        assert(vis0.contains(a));
                                        assert(false);
                                    }
                                }
                                if gs.contains(b) && a != b {
                                    assert(conectado(adj@, a, b));
                                }
                                if conectado(adj@, a, b) && a != b {
                                    assert(gs.contains(b));
                                }
                            }
                        } else {
                            assert(novo@.contains_key(a) <==> novo0.contains_key(a));
                            if novo@.contains_key(a) {
                                assert(novo@[a] == novo0[a]) by {
                                    if ng > 1 {
                                        assert(!grupo@.to_set().contains(a));
                                    }
                                }
                            }
                            assert(vis1.contains(a) <==> vis0.contains(a));
                        }
                    }
                    // the domain after this round
                    assert forall|a: Chave| #[trigger]
                        novo@.contains_key(a) <==> (vis1.contains(a) && exists|b: Chave|
                            a != b && #[trigger] conectado(adj@, a, b)) by {
                        if gs.contains(a) {
                            if ng == 1 {
                                assert(grupo@[0] == k);
                                assert(grupo@ =~= Seq::<Chave>::empty().push(grupo@[0]));
                                lema_to_set_push(Seq::<Chave>::empty(), grupo@[0]);
                                assert(gs =~= Set::<Chave>::empty().insert(grupo@[0]));
                                assert(a == k);
                                if exists|b: Chave| a != b && #[trigger] conectado(adj@, a, b) {
                                    let b = choose|b: Chave|
                                        a != b && #[trigger] conectado(adj@, a, b);
                                    assert(gs.contains(b));
                                    assert(false);
                                }
                                assert(!novo@.contains_key(a)) by {
                                    if novo0.contains_key(a) {
                                        assert(vis0.contains(a));
                                    }
                                }
                            } else {
                                assert(novo@.contains_key(a)) by {
                                    assert(grupo@.contains(a));
                                }
                                // a second member witnesses the partner
                                assert(exists|b: Chave| a != b && #[trigger] conectado(
                                    adj@,
                                    a,
                                    b,
                                )) by {
                                    if a == grupo@[0] {
                                        assert(grupo@[1] != a);
                                        assert(gs.contains(grupo@[1]));
                                        assert(conectado(adj@, a, grupo@[1]));
                                    } else {
                                        assert(gs.contains(grupo@[0]));
                                        assert(conectado(adj@, a, grupo@[0]));
                                    }
                                }
                            }
                        } else {
                            assert(novo@.contains_key(a) <==> novo0.contains_key(a));
                            assert(vis1.contains(a) <==> vis0.contains(a));
                        }
                    }
                    assert(visitados@.contains(chaves_adj@[c as int]));
                }
            }
            proof {
                assert forall|j: int| 0 <= j < c + 1 implies visitados@.contains(
                    #[trigger] chaves_adj@[j],
                ) by {
                    if j == c as int {
                        assert(visitados@.contains(chaves_adj@[c as int]));
                    }
                }
            }
            c = c + 1;
        }
        self.cte_complementar = novo;
        proof {
            // a connected key is an adjacency key, hence visited
            assert forall|a: Chave, b: Chave|
                a != b && #[trigger] conectado(adj@, a, b) implies visitados@.contains(a) by {
                let p = choose|p: Seq<Chave>|
                    eh_caminho(adj@, p) && p[0] == a && p.last() == b;
                assert(aresta(adj@, p[0], p[1]));
                assert(adj@.contains_key(a)) by {
                    if adj@.contains_key(p[1]) && adj@[p[1]].contains(p[0]) {
                        assert(adj@[p[1]].contains(a));
                    }
                }
                assert(chaves_adj@.contains(a));
                let j = choose|j: int| 0 <= j < chaves_adj@.len() && chaves_adj@[j] == a;
            }
            // walks in the adjacency are walks in the original map
            assert forall|a: Chave, b: Chave| #[trigger]
                conectado(adj@, a, b) == conectado(g0, a, b) by {
                if conectado(adj@, a, b) {
                    lema_conectado_mesmas_arestas(adj@, g0, a, b);
                }
                if conectado(g0, a, b) {
                    lema_conectado_mesmas_arestas(g0, adj@, a, b);
                }
            }
            assert forall|a: Chave, b: Chave|
                #![trigger self.cte_complementar@[a].contains(b)]
                #![trigger conectado(g0, a, b)]
                (self.cte_complementar@.contains_key(a) && self.cte_complementar@[a].contains(b))
                    <==> (a != b && conectado(g0, a, b)) by {
                assert(conectado(adj@, a, b) == conectado(g0, a, b));
                if a != b && conectado(adj@, a, b) {
                    assert(visitados@.contains(a));
                }
            }
            assert forall|a: Chave| #[trigger]
                self.cte_complementar@.contains_key(a) <==> exists|b: Chave|
                    a != b && #[trigger] conectado(g0, a, b) by {
                if self.cte_complementar@.contains_key(a) {
                    let b = choose|b: Chave| a != b && #[trigger] conectado(adj@, a, b);
                    assert(conectado(adj@, a, b) == conectado(g0, a, b));
                    assert(a != b && conectado(g0, a, b));
                }
                if exists|b: Chave| a != b && #[trigger] conectado(g0, a, b) {
                    let b = choose|b: Chave| a != b && #[trigger] conectado(g0, a, b);
                    assert(conectado(adj@, a, b) == conectado(g0, a, b));
                    assert(visitados@.contains(a));
                    assert(a != b && conectado(adj@, a, b));
                }
            }
            assert(espec_fechamento(g0, self.cte_complementar@));
        }
    }
}


/// Each vertex a walk of the closed relation reaches is connected, in the
/// original map, to the walk's start.
proof fn lema_caminho_no_fechamento(
    g: Map<Chave, Set<Chave>>,
    r: Map<Chave, Set<Chave>>,
    p: Seq<Chave>,
    i: int,
)
    requires
        espec_fechamento(g, r),
        eh_caminho(r, p),
        1 <= i < p.len(),
    ensures
        conectado(g, p[0], p[i]),
    decreases i,
{
    assert(aresta(r, p[i - 1], p[i]));
    assert(conectado(g, p[i - 1], p[i])) by {
        if r.contains_key(p[i - 1]) && r[p[i - 1]].contains(p[i]) {
        } else {
            assert(r.contains_key(p[i]) && r[p[i]].contains(p[i - 1]));
            lema_conectado_sim(g, p[i], p[i - 1]);
        }
    }
    if i > 1 {
        lema_caminho_no_fechamento(g, r, p, i - 1);
        lema_conectado_trans(g, p[0], p[i - 1], p[i]);
    }
}

/// Closing a relation twice yields what closing it once yields: the
/// transitive closure is idempotent.
pub proof fn lema_fechamento_idempotente(
    g: Map<Chave, Set<Chave>>,
    r1: Map<Chave, Set<Chave>>,
    r2: Map<Chave, Set<Chave>>,
)
    requires
        espec_fechamento(g, r1),
        espec_fechamento(r1, r2),
    ensures
        r2 =~~= r1,
{
    assert forall|a: Chave, b: Chave|
        a != b implies #[trigger] conectado(r1, a, b) == conectado(g, a, b) by {
        if conectado(r1, a, b) {
            let p = choose|p: Seq<Chave>| eh_caminho(r1, p) && p[0] == a && p.last() == b;
            lema_caminho_no_fechamento(g, r1, p, p.len() - 1);
        }
        if conectado(g, a, b) {
            assert(r1.contains_key(a) && r1[a].contains(b));
            lema_aresta_conectado(r1, a, b);
        }
    }
    assert forall|a: Chave| #[trigger] r2.contains_key(a) == r1.contains_key(a) by {
        if r2.contains_key(a) {
            let b = choose|b: Chave| a != b && #[trigger] conectado(r1, a, b);
            assert(conectado(g, a, b));
        }
        if r1.contains_key(a) {
            let b = choose|b: Chave| a != b && #[trigger] conectado(g, a, b);
            assert(conectado(r1, a, b));
        }
    }
    assert forall|a: Chave| #[trigger] r2.contains_key(a) implies r2[a] =~= r1[a] by {
        assert forall|b: Chave| #[trigger] r2[a].contains(b) == r1[a].contains(b) by {
            if r2[a].contains(b) {
                assert(a != b && conectado(r1, a, b));
                assert(conectado(g, a, b));
            }
            if r1[a].contains(b) {
                assert(a != b && conectado(g, a, b));
                assert(conectado(r1, a, b));
            }
        }
    }
    assert(r2 =~~= r1);
}


/// The invariants of the closed complement relation: it is symmetric, no
/// key appears in its own set, and each connected component is a clique
/// (two steps collapse into one).
pub proof fn lema_fechamento_invariantes(g: Map<Chave, Set<Chave>>, r: Map<Chave, Set<Chave>>)
    requires
        espec_fechamento(g, r),
    ensures
        forall|a: Chave, b: Chave| #![trigger r[a].contains(b)]
            r.contains_key(a) && r[a].contains(b) ==> r.contains_key(b) && r[b].contains(a),
        forall|a: Chave| #[trigger] r.contains_key(a) ==> !r[a].contains(a),
        forall|a: Chave, b: Chave, c: Chave|
            #![trigger r[a].contains(b), r[b].contains(c)]
            r.contains_key(a) && r[a].contains(b) && r.contains_key(b) && r[b].contains(c) && c
                != a ==> r[a].contains(c),
{
    assert forall|a: Chave, b: Chave| #![trigger r[a].contains(b)]
        r.contains_key(a) && r[a].contains(b) implies r.contains_key(b) && r[b].contains(a) by {
        assert(a != b && conectado(g, a, b));
        lema_conectado_sim(g, a, b);
    }
    assert forall|a: Chave, b: Chave, c: Chave|
        #![trigger r[a].contains(b), r[b].contains(c)]
        r.contains_key(a) && r[a].contains(b) && r.contains_key(b) && r[b].contains(c) && c
            != a implies r[a].contains(c) by {
        assert(a != b && conectado(g, a, b));
        assert(b != c && conectado(g, b, c));
        lema_conectado_trans(g, a, b, c);
    }
}

/// The propagation contract: after it, a manifest's invoice set holds what
/// it held before, plus the invoices of every manifest whose complement set
/// names it.
pub open spec fn espec_propagacao(
    g: Map<Chave, Set<Chave>>,
    comp: Map<Chave, Set<Chave>>,
    r: Map<Chave, Set<Chave>>,
) -> bool {
    &&& forall|k: Chave| #[trigger]
        r.contains_key(k) <==> (g.contains_key(k) || exists|s: Chave|
            g.contains_key(s) && comp.contains_key(s) && #[trigger] comp[s].contains(k))
    &&& forall|k: Chave, x: Chave|
        #![trigger r[k].contains(x)]
        (r.contains_key(k) && r[k].contains(x)) <==> ((g.contains_key(k) && g[k].contains(x))
            || exists|s: Chave|
            g.contains_key(s) && g[s].contains(x) && comp.contains_key(s)
                && #[trigger] comp[s].contains(k))
}

/// The inversion contract: `r` holds an invoice exactly when some manifest
/// carries it, mapped to exactly those manifests.
pub open spec fn espec_inversao(g: Map<Chave, Set<Chave>>, r: Map<Chave, Set<Chave>>) -> bool {
    &&& forall|n: Chave| #[trigger]
        r.contains_key(n) <==> exists|c: Chave| g.contains_key(c) && #[trigger] g[c].contains(n)
    &&& forall|n: Chave, c: Chave|
        #![trigger r[n].contains(c)]
        (r.contains_key(n) && r[n].contains(c)) <==> (g.contains_key(c) && g[c].contains(n))
}


/// The contribution the propagation pass has gathered from the first `e`
/// source entries: invoice `x` owed to target `k`.
pub open spec fn prop_parcial(
    es: Seq<(Chave, KeySet)>,
    comp: Map<Chave, Set<Chave>>,
    e: int,
    k: Chave,
    x: Chave,
) -> bool {
    exists|i: int|
        0 <= i < e && i < es.len() && comp.contains_key(es[i].0) && comp[es[i].0].contains(k) && (
        #[trigger] es[i]).1@.contains(x)
}

/// The targets the propagation pass has seen in the first `e` source
/// entries.
pub open spec fn prop_alvo(
    es: Seq<(Chave, KeySet)>,
    comp: Map<Chave, Set<Chave>>,
    e: int,
    k: Chave,
) -> bool {
    exists|i: int|
        0 <= i < e && i < es.len() && comp.contains_key((#[trigger] es[i]).0)
            && comp[es[i].0].contains(k)
}

impl Informacoes {
    /// Unions each manifest's invoices into the invoice set of every
    /// manifest in its (post-closure) complement set. Runs strictly after
    /// closure and strictly before inversion.
    #[verifier::rlimit(100)]
    pub fn propagar_nfes_para_cte_complementares(&mut self)
        requires
            info_wf(*old(self)),
        ensures
            info_wf(*final(self)),
            espec_propagacao(
                old(self).cte_nfes@,
                old(self).cte_complementar@,
                final(self).cte_nfes@,
            ),
            final(self).cte_complementar == old(self).cte_complementar,
            final(self).nfe_ctes == old(self).nfe_ctes,
            final(self).numero_total_de_linhas == old(self).numero_total_de_linhas,
    {
        let ghost g = self.cte_nfes@;
        let ghost comp = self.cte_complementar@;
        let ghost es = self.cte_nfes.entradas@;
        let mut atualiza: KeyMap = TabelaChave::vazia();
        let ne = self.cte_nfes.len();
        let mut e: usize = 0;
        while e < ne
            invariant
                e <= ne,
                ne == es.len(),
                es == self.cte_nfes.entradas@,
                comp == self.cte_complementar@,
                info_wf(*self),
                km_wf(atualiza),
                forall|k: Chave| #[trigger]
                    atualiza@.contains_key(k) <==> prop_alvo(es, comp, e as int, k),
                forall|k: Chave, x: Chave|
                    #![trigger atualiza@[k].contains(x)]
                    (atualiza@.contains_key(k) && atualiza@[k].contains(x)) <==> prop_parcial(
                        es,
                        comp,
                        e as int,
                        k,
                        x,
                    ),
            decreases ne - e,
        {
            let s = self.cte_nfes.chave_em(e);
            let ghost atual0 = atualiza@;
            match self.cte_complementar.obter(&s) {
                Option::Some(comps) => {
                    let nt = comps.itens.len();
                    let ghost citens = comps.itens@;
                    proof {
                        assert(comps.wf()) by {
                            let i = choose|i: int|
                                0 <= i < self.cte_complementar.entradas@.len()
                                    && #[trigger] self.cte_complementar.entradas@[i] == (
                                s,
                                *comps,
                                );
                        }
                        assert(citens.take(0).to_set() =~= Set::<Chave>::empty());
                    }
                    let mut t: usize = 0;
                    while t < nt
                        invariant
                            t <= nt,
                            e < ne,
                            ne == es.len(),
                            es == self.cte_nfes.entradas@,
                            comp == self.cte_complementar@,
                            citens == comps.itens@,
                            citens.to_set() == comp[s],
                            comp.contains_key(s),
                            s == es[e as int].0,
                            nt == citens.len(),
                            info_wf(*self),
                            km_wf(atualiza),
                            forall|k: Chave| #[trigger]
                                atualiza@.contains_key(k) <==> (atual0.contains_key(k)
                                    || citens.take(t as int).to_set().contains(k)),
                            forall|k: Chave, x: Chave|
                                #![trigger atualiza@[k].contains(x)]
                                (atualiza@.contains_key(k) && atualiza@[k].contains(x)) <==> ((
                                atual0.contains_key(k) && atual0[k].contains(x)) || (citens.take(
                                    t as int,
                                ).to_set().contains(k) && es[e as int].1@.contains(x))),
                        decreases nt - t,
                    {
                        let alvo = comps.itens[t];
                        let ghost antes = atualiza@;
                        let ns = self.cte_nfes.valor(e).clonar();
                        proof {
                            assert(ns@ == es[e as int].1@);
                        }
                        atualiza.estender_em(alvo, &ns);
                        proof {
                            lema_to_set_push(citens.take(t as int), citens[t as int]);
                            assert(citens.take(t as int + 1) =~= citens.take(t as int).push(
                                citens[t as int],
                            ));
                            assert forall|k: Chave, x: Chave|
                                #![trigger atualiza@[k].contains(x)]
                                (atualiza@.contains_key(k) && atualiza@[k].contains(x)) <==> ((
                                atual0.contains_key(k) && atual0[k].contains(x)) || (citens.take(
                                    t as int + 1,
                                ).to_set().contains(k) && es[e as int].1@.contains(x))) by {
                                if k == alvo {
                                    assert(atualiza@[k] == (if antes.contains_key(alvo) {
                                        antes[alvo]
                                    } else {
                                        Set::<Chave>::empty()
                                    }) + ns@);
                                } else {
                                    if atualiza@.contains_key(k) {
                                        assert(atualiza@[k] == antes[k]);
                                    }
                                }
                            }
                        }
                        t = t + 1;
                    }
                    proof {
                        assert(citens.take(nt as int) =~= citens);
                        assert forall|k: Chave| #[trigger] atualiza@.contains_key(k) <==> prop_alvo(
                            es,
                            comp,
                            e as int + 1,
                            k,
                        ) by {
                            if atualiza@.contains_key(k) && !atual0.contains_key(k) {
                                assert(comp[es[e as int].0].contains(k));
                                assert(prop_alvo(es, comp, e as int + 1, k));
                            }
                            if atualiza@.contains_key(k) && atual0.contains_key(k) {
                                let i = choose|i: int|
                                    0 <= i < e as int && i < es.len() && comp.contains_key(
                                        (#[trigger] es[i]).0,
                                    ) && comp[es[i].0].contains(k);
                                assert(prop_alvo(es, comp, e as int + 1, k));
                            }
                            if prop_alvo(es, comp, e as int + 1, k) {
                                let i = choose|i: int|
                                    0 <= i < e as int + 1 && i < es.len() && comp.contains_key(
                                        (#[trigger] es[i]).0,
                                    ) && comp[es[i].0].contains(k);
                                if i < e as int {
                                    assert(prop_alvo(es, comp, e as int, k));
                                } else {
                                    assert(citens.to_set().contains(k));
                                }
                            }
                        }
                        assert forall|k: Chave, x: Chave|
                            #![trigger atualiza@[k].contains(x)]
                            (atualiza@.contains_key(k) && atualiza@[k].contains(x))
                            <==> prop_parcial(es, comp, e as int + 1, k, x) by {
                            if atualiza@.contains_key(k) && atualiza@[k].contains(x) {
                                if atual0.contains_key(k) && atual0[k].contains(x) {
                                    let i = choose|i: int|
                                        0 <= i < e as int && i < es.len() && comp.contains_key(
                                            es[i].0,
                                        ) && comp[es[i].0].contains(k) && (
                                        #[trigger] es[i]).1@.contains(x);
                                    assert(prop_parcial(es, comp, e as int + 1, k, x));
                                } else {
                                    assert(citens.to_set().contains(k) && es[e as int].1@.contains(
                                        x,
                                    ));
                                    assert(prop_parcial(es, comp, e as int + 1, k, x));
                                }
                            }
                            if prop_parcial(es, comp, e as int + 1, k, x) {
                                let i = choose|i: int|
                                    0 <= i < e as int + 1 && i < es.len() && comp.contains_key(
                                        es[i].0,
                                    ) && comp[es[i].0].contains(k) && (
                                    #[trigger] es[i]).1@.contains(x);
                                if i < e as int {
                                    assert(prop_parcial(es, comp, e as int, k, x));
                                } else {
                                    assert(citens.to_set().contains(k));
                                }
                            }
                        }
                    }
                },
                Option::None => {
                    proof {
                        assert forall|k: Chave| #[trigger] atualiza@.contains_key(k) <==> prop_alvo(
                            es,
                            comp,
                            e as int + 1,
                            k,
                        ) by {
                            if atualiza@.contains_key(k) {
                                let i = choose|i: int|
                                    0 <= i < e as int && i < es.len() && comp.contains_key(
                                        (#[trigger] es[i]).0,
                                    ) && comp[es[i].0].contains(k);
                                assert(prop_alvo(es, comp, e as int + 1, k));
                            }
                            if prop_alvo(es, comp, e as int + 1, k) {
                                let i = choose|i: int|
                                    0 <= i < e as int + 1 && i < es.len() && comp.contains_key(
                                        (#[trigger] es[i]).0,
                                    ) && comp[es[i].0].contains(k);
                                assert(i < e as int);
                            }
                        }
                        assert forall|k: Chave, x: Chave|
                            #![trigger atualiza@[k].contains(x)]
                            (atualiza@.contains_key(k) && atualiza@[k].contains(x))
                            <==> prop_parcial(es, comp, e as int + 1, k, x) by {
                            if atualiza@.contains_key(k) && atualiza@[k].contains(x) {
                                let i = choose|i: int|
                                    0 <= i < e as int && i < es.len() && comp.contains_key(
                                        es[i].0,
                                    ) && comp[es[i].0].contains(k) && (
                                    #[trigger] es[i]).1@.contains(x);
                                assert(prop_parcial(es, comp, e as int + 1, k, x));
                            }
                            if prop_parcial(es, comp, e as int + 1, k, x) {
                                let i = choose|i: int|
                                    0 <= i < e as int + 1 && i < es.len() && comp.contains_key(
                                        es[i].0,
                                    ) && comp[es[i].0].contains(k) && (
                                    #[trigger] es[i]).1@.contains(x);
                                assert(i < e as int);
                            }
                        }
                    }
                },
            }
            e = e + 1;
        }

        // Merge the gathered contributions into the source map.
        let ghost aus = atualiza.entradas@;
        let na = atualiza.len();
        let mut a: usize = 0;
        while a < na
            invariant
                a <= na,
                na == aus.len(),
                aus == atualiza.entradas@,
                g == old(self).cte_nfes@,
                km_wf(atualiza),
                self.cte_complementar == old(self).cte_complementar,
                self.nfe_ctes == old(self).nfe_ctes,
                self.numero_total_de_linhas == old(self).numero_total_de_linhas,
                info_wf(*self),
                forall|k: Chave| #[trigger]
                    self.cte_nfes@.contains_key(k) <==> (g.contains_key(k) || exists|j: int|
                        0 <= j < a && (#[trigger] aus[j]).0 == k),
                forall|k: Chave, x: Chave|
                    #![trigger self.cte_nfes@[k].contains(x)]
                    (self.cte_nfes@.contains_key(k) && self.cte_nfes@[k].contains(x)) <==> ((
                    g.contains_key(k) && g[k].contains(x)) || exists|j: int|
                        0 <= j < a && (#[trigger] aus[j]).0 == k && aus[j].1@.contains(x)),
            decreases na - a,
        {
            let k = atualiza.chave_em(a);
            let ns = atualiza.valor(a).clonar();
            proof {
                assert(ns.wf() && ns@ == aus[a as int].1@);
            }
            let ghost antes = self.cte_nfes@;
            self.cte_nfes.estender_em(k, &ns);
            proof {
                assert forall|kk: Chave| #[trigger] self.cte_nfes@.contains_key(kk) <==> (
                g.contains_key(kk) || exists|j: int|
                    0 <= j < a + 1 && (#[trigger] aus[j]).0 == kk) by {
                    if kk == k {
                        assert(aus[a as int].0 == kk);
                    } else {
                        assert(self.cte_nfes@.contains_key(kk) <==> antes.contains_key(kk));
                        if exists|j: int| 0 <= j < a + 1 && (#[trigger] aus[j]).0 == kk {
                            let j = choose|j: int| 0 <= j < a + 1 && (#[trigger] aus[j]).0 == kk;
                            assert(j < a as int);
                        }
                    }
                }
                assert forall|kk: Chave, x: Chave|
                    #![trigger self.cte_nfes@[kk].contains(x)]
                    (self.cte_nfes@.contains_key(kk) && self.cte_nfes@[kk].contains(x)) <==> ((
                    g.contains_key(kk) && g[kk].contains(x)) || exists|j: int|
                        0 <= j < a + 1 && (#[trigger] aus[j]).0 == kk && aus[j].1@.contains(
                        x,
                    )) by {
                    if kk == k {
                        assert(self.cte_nfes@[kk] == (if antes.contains_key(k) {
                            antes[k]
                        } else {
                            Set::<Chave>::empty()
                        }) + ns@);
                        if self.cte_nfes@[kk].contains(x) && !ns@.contains(x) {
                            assert(antes.contains_key(kk) && antes[kk].contains(x));
                            if !(g.contains_key(kk) && g[kk].contains(x)) {
                                let j = choose|j: int|
                                    0 <= j < a && (#[trigger] aus[j]).0 == kk
                                        && aus[j].1@.contains(x);
                            }
                        }
                        if ns@.contains(x) {
                            assert(aus[a as int].0 == kk && aus[a as int].1@.contains(x));
                        }
                        if exists|j: int|
                            0 <= j < a + 1 && (#[trigger] aus[j]).0 == kk && aus[j].1@.contains(
                            x,
                        ) {
                            let j = choose|j: int|
                                0 <= j < a + 1 && (#[trigger] aus[j]).0 == kk && aus[j].1@.contains(
                                x,
                                );
                            if j < a as int {
                                assert(antes.contains_key(kk) && antes[kk].contains(x));
                            } else {
                                assert(ns@.contains(x));
                            }
                        }
                    } else {
                        if self.cte_nfes@.contains_key(kk) {
                            assert(self.cte_nfes@[kk] == antes[kk]);
                        }
                        if exists|j: int|
                            0 <= j < a + 1 && (#[trigger] aus[j]).0 == kk && aus[j].1@.contains(
                            x,
                        ) {
                            let j = choose|j: int|
                                0 <= j < a + 1 && (#[trigger] aus[j]).0 == kk && aus[j].1@.contains(
                                x,
                                );
                            assert(j < a as int);
                        }
                    }
                }
            }
            a = a + 1;
        }
        proof {
            // translate the index form into the map form of the contract
            assert forall|k: Chave| #[trigger]
                self.cte_nfes@.contains_key(k) <==> (g.contains_key(k) || exists|s: Chave|
                    g.contains_key(s) && comp.contains_key(s) && #[trigger] comp[s].contains(
                        k,
                    )) by {
                if self.cte_nfes@.contains_key(k) && !g.contains_key(k) {
                    let j = choose|j: int| 0 <= j < na && (#[trigger] aus[j]).0 == k;
                    crate::conjuntos::lema_mapa_dominio(aus, k);
                    assert(atualiza@.contains_key(k));
                    assert(prop_alvo(es, comp, ne as int, k));
                    let i = choose|i: int|
                        0 <= i < ne as int && i < es.len() && comp.contains_key(
                            (#[trigger] es[i]).0,
                        ) && comp[es[i].0].contains(k);
                    lema_mapa_valor(es, i);
                    crate::conjuntos::lema_mapa_dominio(es, es[i].0);
                    assert(g.contains_key(es[i].0));
                }
                if !self.cte_nfes@.contains_key(k) && exists|s: Chave|
                    g.contains_key(s) && comp.contains_key(s) && #[trigger] comp[s].contains(k) {
                    let sx = choose|s: Chave|
                        g.contains_key(s) && comp.contains_key(s) && #[trigger] comp[s].contains(
                            k,
                        );
                    crate::conjuntos::lema_mapa_dominio(es, sx);
                    let i = choose|i: int| 0 <= i < es.len() && (#[trigger] es[i]).0 == sx;
                    assert(prop_alvo(es, comp, ne as int, k));
                    assert(atualiza@.contains_key(k));
                    crate::conjuntos::lema_mapa_dominio(aus, k);
                    let j = choose|j: int| 0 <= j < aus.len() && (#[trigger] aus[j]).0 == k;
                    assert(false);
                }
            }
            assert forall|k: Chave, x: Chave|
                #![trigger self.cte_nfes@[k].contains(x)]
                (self.cte_nfes@.contains_key(k) && self.cte_nfes@[k].contains(x)) <==> ((
                g.contains_key(k) && g[k].contains(x)) || exists|s: Chave|
                    g.contains_key(s) && g[s].contains(x) && comp.contains_key(s)
                        && #[trigger] comp[s].contains(k)) by {
                if self.cte_nfes@.contains_key(k) && self.cte_nfes@[k].contains(x) && !(
                g.contains_key(k) && g[k].contains(x)) {
                    let j = choose|j: int|
                        0 <= j < na && (#[trigger] aus[j]).0 == k && aus[j].1@.contains(x);
                    crate::conjuntos::lema_mapa_valor(aus, j);
                    assert(atualiza@.contains_key(k) && atualiza@[k].contains(x));
                    assert(prop_parcial(es, comp, ne as int, k, x));
                    let i = choose|i: int|
                        0 <= i < ne as int && i < es.len() && comp.contains_key(es[i].0)
                            && comp[es[i].0].contains(k) && (#[trigger] es[i]).1@.contains(x);
                    lema_mapa_valor(es, i);
                    crate::conjuntos::lema_mapa_dominio(es, es[i].0);
                    assert(g.contains_key(es[i].0) && g[es[i].0].contains(x));
                }
                if exists|s: Chave|
                    g.contains_key(s) && g[s].contains(x) && comp.contains_key(s)
                        && #[trigger] comp[s].contains(k) {
                    let sx = choose|s: Chave|
                        g.contains_key(s) && g[s].contains(x) && comp.contains_key(s)
                            && #[trigger] comp[s].contains(k);
                    crate::conjuntos::lema_mapa_dominio(es, sx);
                    let i = choose|i: int| 0 <= i < es.len() && (#[trigger] es[i]).0 == sx;
                    lema_mapa_valor(es, i);
                    assert((#[trigger] es[i]).1@.contains(x));
                    assert(prop_parcial(es, comp, ne as int, k, x));
                    assert(atualiza@.contains_key(k) && atualiza@[k].contains(x));
                    crate::conjuntos::lema_mapa_dominio(aus, k);
                    let j = choose|j: int| 0 <= j < aus.len() && (#[trigger] aus[j]).0 == k;
                    crate::conjuntos::lema_mapa_valor(aus, j);
                    assert(aus[j].1@.contains(x));
                    assert(self.cte_nfes@.contains_key(k) && self.cte_nfes@[k].contains(x));
                }
            }
        }
    }
}


impl Informacoes {
    /// Rebuilds the invoice→manifest index from scratch as the exact
    /// inverse of the (propagated) manifest→invoice map. Idempotent: any
    /// prior content is discarded.
    pub fn get_nfe_ctes(&mut self)
        requires
            info_wf(*old(self)),
        ensures
            info_wf(*final(self)),
            espec_inversao(old(self).cte_nfes@, final(self).nfe_ctes@),
            final(self).cte_nfes == old(self).cte_nfes,
            final(self).cte_complementar == old(self).cte_complementar,
            final(self).numero_total_de_linhas == old(self).numero_total_de_linhas,
    {
        let ghost es = self.cte_nfes.entradas@;
        let ghost g = self.cte_nfes@;
        let mut inverso: KeyMap = TabelaChave::vazia();
        let ne = self.cte_nfes.len();
        let mut e: usize = 0;
        while e < ne
            invariant
                e <= ne,
                ne == es.len(),
                es == self.cte_nfes.entradas@,
                info_wf(*self),
                km_wf(inverso),
                forall|n: Chave, c: Chave|
                    #![trigger inverso@[n].contains(c)]
                    #![trigger par_processado(es, e as int, 0, c, n)]
                    (inverso@.contains_key(n) && inverso@[n].contains(c)) <==> par_processado(
                        es,
                        e as int,
                        0,
                        c,
                        n,
                    ),
                forall|n: Chave| #[trigger]
                    inverso@.contains_key(n) <==> exists|c: Chave| #[trigger] par_processado(
                        es,
                        e as int,
                        0,
                        c,
                        n,
                    ),
            decreases ne - e,
        {
            let c0 = self.cte_nfes.chave_em(e);
            let nt = self.cte_nfes.valor(e).itens.len();
            let mut t: usize = 0;
            while t < nt
                invariant
                    t <= nt,
                    e < ne,
                    ne == es.len(),
                    es == self.cte_nfes.entradas@,
                    nt == es[e as int].1.itens@.len(),
                    c0 == es[e as int].0,
                    info_wf(*self),
                    km_wf(inverso),
                    forall|n: Chave, c: Chave|
                        #![trigger inverso@[n].contains(c)]
                        #![trigger par_processado(es, e as int, t as int, c, n)]
                        (inverso@.contains_key(n) && inverso@[n].contains(c))
                            <==> par_processado(es, e as int, t as int, c, n),
                    forall|n: Chave| #[trigger]
                        inverso@.contains_key(n) <==> exists|c: Chave| #[trigger] par_processado(
                            es,
                            e as int,
                            t as int,
                            c,
                            n,
                        ),
                decreases nt - t,
            {
                let v = self.cte_nfes.valor(e).itens[t];
                let ghost inv0 = inverso@;
                inverso.inserir_par(v, c0);
                proof {
                    let ei = e as int;
                    let ti = t as int;
                    assert forall|n: Chave, c: Chave|
                        #![trigger inverso@[n].contains(c)]
                        #![trigger par_processado(es, ei, ti + 1, c, n)]
                        (inverso@.contains_key(n) && inverso@[n].contains(c)) <==> par_processado(
                            es,
                            ei,
                            ti + 1,
                            c,
                            n,
                        ) by {
                        assert((inverso@.contains_key(n) && inverso@[n].contains(c)) <==> ((
                        inv0.contains_key(n) && inv0[n].contains(c)) || (n == v && c == c0))) by {
                            if n == v {
                                assert(inverso@[n] == (if inv0.contains_key(v) {
                                    inv0[v]
                                } else {
                                    Set::<Chave>::empty()
                                }).insert(c0));
                            } else {
                                if inverso@.contains_key(n) {
                                    assert(inverso@[n] == inv0[n]);
                                }
                            }
                        }
                        assert(par_processado(es, ei, ti + 1, c, n) <==> (par_processado(
                            es,
                            ei,
                            ti,
                            c,
                            n,
                        ) || (c == c0 && n == v))) by {
                            if par_processado(es, ei, ti + 1, c, n) {
                                let (i, j) = choose|i: int, j: int|
                                    0 <= i <= ei && 0 <= j && (i < ei || j < ti + 1) && i
                                        < es.len() && j < es[i].1.itens@.len() && es[i].0 == c
                                        && #[trigger] es[i].1.itens@[j] == n;
                                if !(i == ei && j == ti) {
                                    assert(par_processado(es, ei, ti, c, n));
                                }
                            }
                            if par_processado(es, ei, ti, c, n) {
                                let (i, j) = choose|i: int, j: int|
                                    0 <= i <= ei && 0 <= j && (i < ei || j < ti) && i < es.len()
                                        && j < es[i].1.itens@.len() && es[i].0 == c
                                        && #[trigger] es[i].1.itens@[j] == n;
                                assert(par_processado(es, ei, ti + 1, c, n));
                            }
                            if c == c0 && n == v {
                                assert(es[ei].0 == c && #[trigger] es[ei].1.itens@[ti] == n);
                                assert(par_processado(es, ei, ti + 1, c, n));
                            }
                        }
                    }
                    assert forall|n: Chave| #[trigger]
                        inverso@.contains_key(n) <==> exists|c: Chave| #[trigger] par_processado(
                            es,
                            ei,
                            ti + 1,
                            c,
                            n,
                        ) by {
                        if inverso@.contains_key(n) {
                            if n == v {
                                assert(inverso@[n].contains(c0));
                                assert(par_processado(es, ei, ti + 1, c0, n));
                            } else {
                                assert(inv0.contains_key(n));
                                let c = choose|c: Chave| #[trigger] par_processado(
                                    es,
                                    ei,
                                    ti,
                                    c,
                                    n,
                                );
                                assert(inv0[n].contains(c));
                                assert(inverso@[n].contains(c));
                            }
                        }
                        if exists|c: Chave| #[trigger] par_processado(es, ei, ti + 1, c, n) {
                            let c = choose|c: Chave| #[trigger] par_processado(es, ei, ti + 1, c, n);
                            assert(inverso@[n].contains(c));
                        }
                    }
                }
                t = t + 1;
            }
            proof {
                let ei = e as int;
                assert forall|n: Chave, c: Chave| #[trigger] par_processado(es, ei + 1, 0, c, n)
                    <==> par_processado(es, ei, nt as int, c, n) by {
                    if par_processado(es, ei + 1, 0, c, n) {
                        let (i, j) = choose|i: int, j: int|
                            0 <= i <= ei + 1 && 0 <= j && (i < ei + 1 || j < 0) && i < es.len()
                                && j < es[i].1.itens@.len() && es[i].0 == c
                                && #[trigger] es[i].1.itens@[j] == n;
                        assert(i < ei || j < nt as int);
                        assert(par_processado(es, ei, nt as int, c, n));
                    }
                    if par_processado(es, ei, nt as int, c, n) {
                        let (i, j) = choose|i: int, j: int|
                            0 <= i <= ei && 0 <= j && (i < ei || j < nt as int) && i < es.len()
                                && j < es[i].1.itens@.len() && es[i].0 == c
                                && #[trigger] es[i].1.itens@[j] == n;
                        assert(i < ei + 1 || j < 0);
                        assert(par_processado(es, ei + 1, 0, c, n));
                    }
                }
                assert forall|n: Chave| #[trigger]
                    inverso@.contains_key(n) <==> exists|c: Chave| #[trigger] par_processado(
                        es,
                        ei + 1,
                        0,
                        c,
                        n,
                    ) by {
                    if inverso@.contains_key(n) {
                        let c = choose|c: Chave| #[trigger] par_processado(es, ei, nt as int, c, n);
                        assert(par_processado(es, ei + 1, 0, c, n));
                    }
                    if exists|c: Chave| #[trigger] par_processado(es, ei + 1, 0, c, n) {
                        let c = choose|c: Chave| #[trigger] par_processado(es, ei + 1, 0, c, n);
                        assert(par_processado(es, ei, nt as int, c, n));
                    }
                }
            }
            e = e + 1;
        }
        self.nfe_ctes = inverso;
        proof {
            let nei = ne as int;
            assert forall|c: Chave, n: Chave| #[trigger] par_processado(es, nei, 0, c, n) <==> (
            g.contains_key(c) && g[c].contains(n)) by {
                if par_processado(es, nei, 0, c, n) {
                    let (i, j) = choose|i: int, j: int|
                        0 <= i <= nei && 0 <= j && (i < nei || j < 0) && i < es.len() && j
                            < es[i].1.itens@.len() && es[i].0 == c && #[trigger] es[i].1.itens@[j]
                            == n;
                    lema_mapa_valor(es, i);
                    assert(es[i].1.itens@.contains(n));
                    assert(es[i].1.itens@.to_set().contains(n));
                }
                if g.contains_key(c) && g[c].contains(n) {
                    lema_mapa_dominio(es, c);
                    let i = choose|i: int| 0 <= i < es.len() && (#[trigger] es[i]).0 == c;
                    lema_mapa_valor(es, i);
                    assert(es[i].1.itens@.to_set().contains(n));
                    let j = choose|j: int| 0 <= j < es[i].1.itens@.len() && es[i].1.itens@[j] == n;
                    assert(#[trigger] es[i].1.itens@[j] == n);
                    assert(par_processado(es, nei, 0, c, n));
                }
            }
            assert forall|n: Chave| #[trigger]
                self.nfe_ctes@.contains_key(n) <==> exists|c: Chave|
                    g.contains_key(c) && #[trigger] g[c].contains(n) by {
                if self.nfe_ctes@.contains_key(n) {
                    let c = choose|c: Chave| #[trigger] par_processado(es, nei, 0, c, n);
                    assert(g.contains_key(c) && g[c].contains(n));
                }
                if exists|c: Chave| g.contains_key(c) && #[trigger] g[c].contains(n) {
                    let c = choose|c: Chave| g.contains_key(c) && #[trigger] g[c].contains(n);
                    assert(par_processado(es, nei, 0, c, n));
                    assert(self.nfe_ctes@.contains_key(n) && self.nfe_ctes@[n].contains(c));
                }
            }
        }
    }
}


/// A word character, for token boundaries: a digit, an ASCII letter or an
/// underscore.
pub open spec fn eh_palavra(c: char) -> bool {
    eh_digito(c) || (97 <= c as u32 && c as u32 <= 122) || (65 <= c as u32 && c as u32 <= 90)
        || c == '_'
}

/// A 44-digit token starts at `i`: 44 digit characters whose neighbours, if
/// any, are not word characters.
pub open spec fn token_em(s: Seq<char>, i: int) -> bool {
    &&& 0 <= i
    &&& i + 44 <= s.len()
    &&& forall|j: int| i <= j < i + 44 ==> eh_digito(#[trigger] s[j])
    &&& (i == 0 || !eh_palavra(s[i - 1]))
    &&& (i + 44 == s.len() || !eh_palavra(s[i + 44]))
}

/// The token positions at or after `i`, in order.
pub open spec fn posicoes_tokens(s: Seq<char>, i: int) -> Seq<int>
    decreases s.len() - i,
{
    if i < 0 || i + 44 > s.len() {
        Seq::empty()
    } else if token_em(s, i) {
        seq![i] + posicoes_tokens(s, i + 1)
    } else {
        posicoes_tokens(s, i + 1)
    }
}

/// The key denoted by 44 digit characters.
pub open spec fn chave_de(s: Seq<char>) -> Chave {
    Chave { hi: valor_digitos(s.take(22)) as u128, lo: valor_digitos(s.skip(22)) as u128 }
}

/// The keys a line holds: one for each 44-digit token, in order.
pub open spec fn chaves_da_linha(s: Seq<char>) -> Seq<Chave> {
    posicoes_tokens(s, 0).map_values(
        |p: int| chave_de(s.subrange(p, p + 44)),
    )
}

/// Whether a 44-digit token starts at `i` of `v`.
fn token_exec(v: &Vec<char>, i: usize) -> (r: bool)
    requires
        i + 44 <= v@.len(),
    ensures
        r == token_em(v@, i as int),
{
    let n = v.len();
    if i > 0 {
        let c = v[i - 1];
        let u = c as u32;
        if (48 <= u && u <= 57) || (97 <= u && u <= 122) || (65 <= u && u <= 90) || c == '_' {
            return false;
        }
    }
    if i + 44 < n {
        let c = v[i + 44];
        let u = c as u32;
        if (48 <= u && u <= 57) || (97 <= u && u <= 122) || (65 <= u && u <= 90) || c == '_' {
            return false;
        }
    }
    let mut j: usize = 0;
    while j < 44
        invariant
            j <= 44,
            i + 44 <= v@.len(),
            n == v@.len(),
            forall|t: int| i <= t < i + j ==> eh_digito(#[trigger] v@[t]),
        decreases 44 - j,
    {
        let u = v[i + j] as u32;
        if !(48 <= u && u <= 57) {
            return false;
        }
        j = j + 1;
    }
    true
}

/// Scans a line for 44-digit tokens and returns their keys, in order.
pub fn scan_chaves(linha: &str) -> (r: Vec<Chave>)
    ensures
        r@ == chaves_da_linha(linha@),
        forall|j: int| 0 <= j < r@.len() ==> (#[trigger] r@[j]).wf(),
{
    let v = chars_do_texto(linha);
    let n = v.len();
    let mut r: Vec<Chave> = Vec::new();
    let ghost posics = posicoes_tokens(linha@, 0);
    let ghost mut emitidos: Seq<int> = Seq::empty();
    proof {
        assert(emitidos + posicoes_tokens(linha@, 0) =~= posics);
    }
    if n < 44 {
        proof {
            assert(posicoes_tokens(linha@, 0) =~= Seq::<int>::empty());
            assert(r@ =~= chaves_da_linha(linha@));
        }
        return r;
    }
    let mut i: usize = 0;
    while i <= n - 44
        invariant
            n == v@.len(),
            n >= 44,
            i <= n - 44 + 1,
            v@ == linha@,
            posics == posicoes_tokens(linha@, 0),
            posics == emitidos + posicoes_tokens(linha@, i as int),
            r@.len() == emitidos.len(),
            forall|j: int|
                0 <= j < emitidos.len() ==> 0 <= #[trigger] emitidos[j] && emitidos[j] + 44
                    <= linha@.len(),
            forall|j: int|
                0 <= j < r@.len() ==> #[trigger] r@[j] == chave_de(
                    linha@.subrange(emitidos[j], emitidos[j] + 44),
                ) && r@[j].wf(),
        decreases n - i,
    {
        if token_exec(&v, i) {
            let trecho = linha.substring_char(i, i + 44);
            let ghost sub = linha@.subrange(i as int, i as int + 44);
            proof {
                assert(forall|t: int| 0 <= t < 44 ==> eh_digito(#[trigger] sub[t]));
                lema_so_digitos_identidade(sub);
                assert(crate::chave::so_digitos(sub).len() == 44);
            }
            match Chave::new(trecho) {
                Option::Some(c) => {
                    proof {
                        assert(forall|t: int|
                            0 <= t < 22 ==> eh_digito(#[trigger] sub.take(22)[t]));
                        assert(forall|t: int|
                            0 <= t < 22 ==> eh_digito(#[trigger] sub.skip(22)[t]));
                        lema_digitos_de_valor(sub.take(22));
                        lema_digitos_de_valor(sub.skip(22));
                        crate::chave::lema_pow10_22();
                        let alvo = chave_de(sub);
                        assert(alvo@ =~= sub.take(22) + sub.skip(22));
                        assert(sub.take(22) + sub.skip(22) =~= sub);
                        assert(c@ == sub);
                        assert(alvo.wf());
                        c.lema_vista_injetiva(alvo);
                        assert(c == alvo);
                    }
                    r.push(c);
                    proof {
                        emitidos = emitidos.push(i as int);
                        assert(seq![i as int] + posicoes_tokens(linha@, i as int + 1)
                            =~= Seq::<int>::empty().push(i as int) + posicoes_tokens(
                            linha@,
                            i as int + 1,
                        ));
                        assert(emitidos + posicoes_tokens(linha@, i as int + 1) =~= posics);
                    }
                },
                Option::None => {
                    proof {
                        assert(false);
                    }
                },
            }
        }
        i = i + 1;
    }
    proof {
        assert(posicoes_tokens(linha@, i as int) =~= Seq::<int>::empty());
        assert(emitidos =~= posics);
        assert(r@ =~= chaves_da_linha(linha@));
    }
    r
}


/// What one line of the manifest→invoice source contributes: the first key
/// when it is manifest-typed, with the invoice-typed keys that follow it;
/// nothing otherwise.
pub open spec fn linha_cte_nfes(s: Seq<char>) -> Option<(Chave, Set<Chave>)> {
    let cs = chaves_da_linha(s);
    if cs.len() == 0 {
        None
    } else if !cs[0].eh_cte() {
        None
    } else if !(exists|j: int| 1 <= j < cs.len() && (#[trigger] cs[j]).eh_nfe()) {
        None
    } else {
        Some(
            (
                cs[0],
                Set::new(
                    |c: Chave|
                        c.eh_nfe() && exists|j: int| 1 <= j < cs.len() && #[trigger] cs[j] == c,
                ),
            ),
        )
    }
}

/// What one line of the complementary-manifest source contributes: its
/// first two keys, when both are manifest-typed and distinct.
pub open spec fn linha_complementar(s: Seq<char>) -> Option<(Chave, Chave)> {
    let cs = chaves_da_linha(s);
    if cs.len() >= 2 && cs[0].eh_cte() && cs[1].eh_cte() && cs[0] != cs[1] {
        Some((cs[0], cs[1]))
    } else {
        None
    }
}

/// The loading contract for the manifest→invoice source: each manifest's
/// set is the union of its lines' contributions.
pub open spec fn espec_carga_nfes(linhas: Seq<Seq<char>>, m: Map<Chave, Set<Chave>>) -> bool {
    &&& forall|k: Chave| #[trigger]
        m.contains_key(k) <==> exists|l: int|
            0 <= l < linhas.len() && (#[trigger] linha_cte_nfes(linhas[l])) is Some
                && linha_cte_nfes(linhas[l]).unwrap().0 == k
    &&& forall|k: Chave, x: Chave|
        #![trigger m[k].contains(x)]
        (m.contains_key(k) && m[k].contains(x)) <==> exists|l: int|
            0 <= l < linhas.len() && (#[trigger] linha_cte_nfes(linhas[l])) is Some
                && linha_cte_nfes(linhas[l]).unwrap().0 == k && linha_cte_nfes(
                linhas[l],
            ).unwrap().1.contains(x)
}

/// The loading contract for the complementary source: an edge is stored,
/// in both directions, for every well-shaped line.
pub open spec fn espec_carga_comp(linhas: Seq<Seq<char>>, m: Map<Chave, Set<Chave>>) -> bool {
    &&& forall|a: Chave, b: Chave|
        #![trigger m[a].contains(b)]
        (m.contains_key(a) && m[a].contains(b)) <==> exists|l: int|
            0 <= l < linhas.len() && ((#[trigger] linha_complementar(linhas[l])) == Some((a, b))
                || linha_complementar(linhas[l]) == Some((b, a)))
    &&& forall|a: Chave| #[trigger]
        m.contains_key(a) <==> exists|l: int|
            0 <= l < linhas.len() && (#[trigger] linha_complementar(linhas[l])) is Some && (
            linha_complementar(linhas[l]).unwrap().0 == a || linha_complementar(
                linhas[l],
            ).unwrap().1 == a)
}

/// The views of a vector of text lines.
pub open spec fn vistas(linhas: Seq<String>) -> Seq<Seq<char>> {
    linhas.map_values(|l: String| l@)
}

/// Loads the manifest→invoice relationship source from its lines.
#[verifier::rlimit(100)]
pub fn carregar_cte_nfes(linhas: &Vec<String>) -> (r: KeyMap)
    ensures
        km_wf(r),
        espec_carga_nfes(vistas(linhas@), r@),
{
    let ghost ls = vistas(linhas@);
    let mut r: KeyMap = TabelaChave::vazia();
    let nl = linhas.len();
    let mut l: usize = 0;
    while l < nl
        invariant
            l <= nl,
            nl == linhas@.len(),
            ls == vistas(linhas@),
            km_wf(r),
            forall|k: Chave| #[trigger]
                r@.contains_key(k) <==> exists|t: int|
                    0 <= t < l && (#[trigger] linha_cte_nfes(ls[t])) is Some && linha_cte_nfes(
                        ls[t],
                    ).unwrap().0 == k,
            forall|k: Chave, x: Chave|
                #![trigger r@[k].contains(x)]
                (r@.contains_key(k) && r@[k].contains(x)) <==> exists|t: int|
                    0 <= t < l && (#[trigger] linha_cte_nfes(ls[t])) is Some && linha_cte_nfes(
                        ls[t],
                    ).unwrap().0 == k && linha_cte_nfes(ls[t]).unwrap().1.contains(x),
        decreases nl - l,
    {
        let cs = scan_chaves(linhas[l].as_str());
        let ghost li = linha_cte_nfes(ls[l as int]);
        proof {
            assert(ls[l as int] == linhas@[l as int]@);
            assert(cs@ == chaves_da_linha(ls[l as int]));
        }
        let mut pulou = true;
        if cs.len() > 0 && cs[0].is_cte() {
            let primeira = cs[0];
            let mut nfes = KeySet::vazio();
            let nc = cs.len();
            let mut j: usize = 1;
            while j < nc
                invariant
                    1 <= j <= nc,
                    nc == cs@.len(),
                    nfes.wf(),
                    forall|c: Chave| #[trigger]
                        nfes@.contains(c) <==> (c.eh_nfe() && exists|t: int|
                            1 <= t < j && #[trigger] cs@[t] == c),
                decreases nc - j,
            {
                if cs[j].is_nfe() {
                    nfes.inserir(cs[j]);
                    proof {
                        assert forall|c: Chave| #[trigger] nfes@.contains(c) <==> (c.eh_nfe()
                            && exists|t: int| 1 <= t < j + 1 && #[trigger] cs@[t] == c) by {
                            if nfes@.contains(c) {
                                if c == cs@[j as int] {
                                    assert(cs@[j as int] == c);
                                } else {
                                    let t = choose|t: int| 1 <= t < j && #[trigger] cs@[t] == c;
                                }
                            }
                            if c.eh_nfe() && exists|t: int| 1 <= t < j + 1 && #[trigger] cs@[t]
                                == c {
                                let t = choose|t: int| 1 <= t < j + 1 && #[trigger] cs@[t] == c;
                            }
                        }
                    }
                } else {
                    proof {
                        assert forall|c: Chave| #[trigger] nfes@.contains(c) <==> (c.eh_nfe()
                            && exists|t: int| 1 <= t < j + 1 && #[trigger] cs@[t] == c) by {
                            if c.eh_nfe() && exists|t: int| 1 <= t < j + 1 && #[trigger] cs@[t]
                                == c {
                                let t = choose|t: int| 1 <= t < j + 1 && #[trigger] cs@[t] == c;
                                if t == j as int {
                                    assert(!cs@[j as int].eh_nfe());
                                }
                            }
                        }
                    }
                }
                j = j + 1;
            }
            if nfes.len() > 0 {
                proof {
                    let c0 = choose|c: Chave| #[trigger] nfes@.contains(c);
                    assert(nfes@.contains(nfes.itens@[0]));
                    let t = choose|t: int|
                        1 <= t < nc && #[trigger] cs@[t] == nfes.itens@[0];
                    assert(li is Some);
                    assert(li.unwrap().0 == primeira);
                    assert(li.unwrap().1 =~= nfes@);
                }
                let ghost antes = r@;
                r.estender_em(primeira, &nfes);
                pulou = false;
                proof {
                    assert forall|k: Chave| #[trigger] r@.contains_key(k) <==> exists|t: int|
                        0 <= t < l + 1 && (#[trigger] linha_cte_nfes(ls[t])) is Some
                            && linha_cte_nfes(ls[t]).unwrap().0 == k by {
                        if r@.contains_key(k) {
                            if k == primeira {
                                assert(linha_cte_nfes(ls[l as int]) is Some && linha_cte_nfes(
                                    ls[l as int],
                                ).unwrap().0 == k);
                            } else {
                                let t = choose|t: int|
                                    0 <= t < l && (#[trigger] linha_cte_nfes(ls[t])) is Some
                                        && linha_cte_nfes(ls[t]).unwrap().0 == k;
                            }
                        }
                        if exists|t: int|
                            0 <= t < l + 1 && (#[trigger] linha_cte_nfes(ls[t])) is Some
                                && linha_cte_nfes(ls[t]).unwrap().0 == k {
                            let t = choose|t: int|
                                0 <= t < l + 1 && (#[trigger] linha_cte_nfes(ls[t])) is Some
                                    && linha_cte_nfes(ls[t]).unwrap().0 == k;
                            if t == l as int {
                                assert(k == primeira);
                                assert(r@.contains_key(k));
                            } else {
                                assert(antes.contains_key(k));
                            }
                        }
                    }
                    assert forall|k: Chave, x: Chave|
                        #![trigger r@[k].contains(x)]
                        (r@.contains_key(k) && r@[k].contains(x)) <==> exists|t: int|
                            0 <= t < l + 1 && (#[trigger] linha_cte_nfes(ls[t])) is Some
                                && linha_cte_nfes(ls[t]).unwrap().0 == k && linha_cte_nfes(
                                ls[t],
                            ).unwrap().1.contains(x) by {
                        if k == primeira {
                            assert(r@[k] == (if antes.contains_key(k) {
                                antes[k]
                            } else {
                                Set::<Chave>::empty()
                            }) + nfes@);
                            if r@.contains_key(k) && r@[k].contains(x) {
                                if nfes@.contains(x) {
                                    assert(linha_cte_nfes(ls[l as int]).unwrap().1.contains(x));
                                } else {
                                    assert(antes.contains_key(k) && antes[k].contains(x));
                                    let t = choose|t: int|
                                        0 <= t < l && (#[trigger] linha_cte_nfes(ls[t])) is Some
                                            && linha_cte_nfes(ls[t]).unwrap().0 == k
                                            && linha_cte_nfes(ls[t]).unwrap().1.contains(x);
                                }
                            }
                            if exists|t: int|
                                0 <= t < l + 1 && (#[trigger] linha_cte_nfes(ls[t])) is Some
                                    && linha_cte_nfes(ls[t]).unwrap().0 == k && linha_cte_nfes(
                                    ls[t],
                                ).unwrap().1.contains(x) {
                                let t = choose|t: int|
                                    0 <= t < l + 1 && (#[trigger] linha_cte_nfes(ls[t])) is Some
                                        && linha_cte_nfes(ls[t]).unwrap().0 == k && linha_cte_nfes(
                                        ls[t],
                                    ).unwrap().1.contains(x);
                                if t == l as int {
                                    assert(nfes@.contains(x));
                                } else {
                                    assert(antes.contains_key(k) && antes[k].contains(x));
                                }
                            }
                        } else {
                            if r@.contains_key(k) {
                                assert(r@[k] == antes[k]);
                            }
                            if exists|t: int|
                                0 <= t < l + 1 && (#[trigger] linha_cte_nfes(ls[t])) is Some
                                    && linha_cte_nfes(ls[t]).unwrap().0 == k && linha_cte_nfes(
                                    ls[t],
                                ).unwrap().1.contains(x) {
                                let t = choose|t: int|
                                    0 <= t < l + 1 && (#[trigger] linha_cte_nfes(ls[t])) is Some
                                        && linha_cte_nfes(ls[t]).unwrap().0 == k && linha_cte_nfes(
                                        ls[t],
                                    ).unwrap().1.contains(x);
                                assert(t < l as int);
                            }
                        }
                    }
                }
            } else {
                proof {
                    assert(li is None) by {
                        if exists|j2: int|
                            1 <= j2 < cs@.len() && (#[trigger] cs@[j2]).eh_nfe() {
                            let j2 = choose|j2: int|
                                1 <= j2 < cs@.len() && (#[trigger] cs@[j2]).eh_nfe();
                            assert(nfes@.contains(cs@[j2]));
                            crate::conjuntos::lema_to_set_push(Seq::<Chave>::empty(), cs@[j2]);
                            assert(nfes@.len() > 0) by {
                                nfes.itens@.unique_seq_to_set();
                            }
                        }
                    }
                }
            }
        } else {
            proof {
                assert(li is None);
            }
        }
        if pulou {
            proof {
                assert(li is None);
                assert forall|k: Chave| #[trigger] r@.contains_key(k) <==> exists|t: int|
                    0 <= t < l + 1 && (#[trigger] linha_cte_nfes(ls[t])) is Some && linha_cte_nfes(
                        ls[t],
                    ).unwrap().0 == k by {
                    if r@.contains_key(k) {
                        let t = choose|t: int|
                            0 <= t < l && (#[trigger] linha_cte_nfes(ls[t])) is Some
                                && linha_cte_nfes(ls[t]).unwrap().0 == k;
                    }
                    if exists|t: int|
                        0 <= t < l + 1 && (#[trigger] linha_cte_nfes(ls[t])) is Some
                            && linha_cte_nfes(ls[t]).unwrap().0 == k {
                        let t = choose|t: int|
                            0 <= t < l + 1 && (#[trigger] linha_cte_nfes(ls[t])) is Some
                                && linha_cte_nfes(ls[t]).unwrap().0 == k;
                        assert(t < l as int);
                    }
                }
                assert forall|k: Chave, x: Chave|
                    #![trigger r@[k].contains(x)]
                    (r@.contains_key(k) && r@[k].contains(x)) <==> exists|t: int|
                        0 <= t < l + 1 && (#[trigger] linha_cte_nfes(ls[t])) is Some
                            && linha_cte_nfes(ls[t]).unwrap().0 == k && linha_cte_nfes(
                            ls[t],
                        ).unwrap().1.contains(x) by {
                    if r@.contains_key(k) && r@[k].contains(x) {
                        let t = choose|t: int|
                            0 <= t < l && (#[trigger] linha_cte_nfes(ls[t])) is Some
                                && linha_cte_nfes(ls[t]).unwrap().0 == k && linha_cte_nfes(
                                ls[t],
                            ).unwrap().1.contains(x);
                    }
                    if exists|t: int|
                        0 <= t < l + 1 && (#[trigger] linha_cte_nfes(ls[t])) is Some
                            && linha_cte_nfes(ls[t]).unwrap().0 == k && linha_cte_nfes(
                            ls[t],
                        ).unwrap().1.contains(x) {
                        let t = choose|t: int|
                            0 <= t < l + 1 && (#[trigger] linha_cte_nfes(ls[t])) is Some
                                && linha_cte_nfes(ls[t]).unwrap().0 == k && linha_cte_nfes(
                                ls[t],
                            ).unwrap().1.contains(x);
                        assert(t < l as int);
                    }
                }
            }
        }
        l = l + 1;
    }
    r
}


/// Loads the complementary-manifest source from its lines: each
/// well-shaped line inserts its edge in both directions.
#[verifier::rlimit(100)]
pub fn carregar_complementares(linhas: &Vec<String>) -> (r: KeyMap)
    ensures
        km_wf(r),
        espec_carga_comp(vistas(linhas@), r@),
{
    let ghost ls = vistas(linhas@);
    let mut r: KeyMap = TabelaChave::vazia();
    let nl = linhas.len();
    let mut l: usize = 0;
    while l < nl
        invariant
            l <= nl,
            nl == linhas@.len(),
            ls == vistas(linhas@),
            km_wf(r),
            forall|a: Chave, b: Chave|
                #![trigger r@[a].contains(b)]
                (r@.contains_key(a) && r@[a].contains(b)) <==> exists|t: int|
                    0 <= t < l && ((#[trigger] linha_complementar(ls[t])) == Some((a, b))
                        || linha_complementar(ls[t]) == Some((b, a))),
            forall|a: Chave| #[trigger]
                r@.contains_key(a) <==> exists|t: int|
                    0 <= t < l && (#[trigger] linha_complementar(ls[t])) is Some && (
                    linha_complementar(ls[t]).unwrap().0 == a || linha_complementar(
                        ls[t],
                    ).unwrap().1 == a),
        decreases nl - l,
    {
        let cs = scan_chaves(linhas[l].as_str());
        let ghost li = linha_complementar(ls[l as int]);
        proof {
            assert(ls[l as int] == linhas@[l as int]@);
            assert(cs@ == chaves_da_linha(ls[l as int]));
        }
        if cs.len() >= 2 && cs[0].is_cte() && cs[1].is_cte() && cs[0] != cs[1] {
            let u = cs[0];
            let v = cs[1];
            let ghost r0 = r@;
            r.inserir_par(u, v);
            let ghost r1 = r@;
            r.inserir_par(v, u);
            proof {
                assert(li == Some((u, v)));
                assert forall|a: Chave, b: Chave|
                    #![trigger r@[a].contains(b)]
                    (r@.contains_key(a) && r@[a].contains(b)) <==> exists|t: int|
                        0 <= t < l + 1 && ((#[trigger] linha_complementar(ls[t])) == Some((a, b))
                            || linha_complementar(ls[t]) == Some((b, a))) by {
                    let novo_ab = (a == u && b == v) || (a == v && b == u);
                    assert((r@.contains_key(a) && r@[a].contains(b)) <==> ((r0.contains_key(a)
                        && r0[a].contains(b)) || novo_ab)) by {
                        if a == v {
                            if u == v {
                                assert(r1[a] == (if r0.contains_key(u) {
                                    r0[u]
                                } else {
                                    Set::<Chave>::empty()
                                }).insert(v));
                            }
                            assert(r@[a] == (if r1.contains_key(v) {
                                r1[v]
                            } else {
                                Set::<Chave>::empty()
                            }).insert(u));
                            if u != v && r0.contains_key(v) {
                                assert(r1[v] == r0[v]);
                            }
                        } else if a == u {
                            assert(r@[a] == r1[a]);
                            assert(r1[a] == (if r0.contains_key(u) {
                                r0[u]
                            } else {
                                Set::<Chave>::empty()
                            }).insert(v));
                        } else {
                            if r0.contains_key(a) {
                                assert(r@[a] == r0[a]);
                            }
                        }
                    }
                    if r0.contains_key(a) && r0[a].contains(b) {
                        let t = choose|t: int|
                            0 <= t < l && ((#[trigger] linha_complementar(ls[t])) == Some((a, b))
                                || linha_complementar(ls[t]) == Some((b, a)));
                    }
                    if novo_ab {
                        assert(linha_complementar(ls[l as int]) == Some((u, v)));
                    }
                    if exists|t: int|
                        0 <= t < l + 1 && ((#[trigger] linha_complementar(ls[t])) == Some((a, b))
                            || linha_complementar(ls[t]) == Some((b, a))) {
                        let t = choose|t: int|
                            0 <= t < l + 1 && ((#[trigger] linha_complementar(ls[t])) == Some(
                                (a, b),
                            ) || linha_complementar(ls[t]) == Some((b, a)));
                        if t == l as int {
                            assert(novo_ab);
                        }
                    }
                }
                assert forall|a: Chave| #[trigger] r@.contains_key(a) <==> exists|t: int|
                    0 <= t < l + 1 && (#[trigger] linha_complementar(ls[t])) is Some && (
                    linha_complementar(ls[t]).unwrap().0 == a || linha_complementar(
                        ls[t],
                    ).unwrap().1 == a) by {
                    if r@.contains_key(a) {
                        if a == u || a == v {
                            assert(linha_complementar(ls[l as int]) is Some);
                        } else {
                            assert(r0.contains_key(a));
                            let t = choose|t: int|
                                0 <= t < l && (#[trigger] linha_complementar(ls[t])) is Some && (
                                linha_complementar(ls[t]).unwrap().0 == a || linha_complementar(
                                    ls[t],
                                ).unwrap().1 == a);
                        }
                    }
                    if exists|t: int|
                        0 <= t < l + 1 && (#[trigger] linha_complementar(ls[t])) is Some && (
                        linha_complementar(ls[t]).unwrap().0 == a || linha_complementar(
                            ls[t],
                        ).unwrap().1 == a) {
                        let t = choose|t: int|
                            0 <= t < l + 1 && (#[trigger] linha_complementar(ls[t])) is Some && (
                            linha_complementar(ls[t]).unwrap().0 == a || linha_complementar(
                                ls[t],
                            ).unwrap().1 == a);
                        if t == l as int {
                            assert(a == u || a == v);
                            if a == u {
                                assert(r1.contains_key(u) && r1[u].contains(v));
                                assert(r@.contains_key(u));
                            } else {
                                assert(r@.contains_key(v) && r@[v].contains(u));
                            }
                        } else {
                            assert(r0.contains_key(a));
                        }
                    }
                }
            }
        } else {
            proof {
                assert(li is None);
                assert forall|a: Chave, b: Chave|
                    #![trigger r@[a].contains(b)]
                    (r@.contains_key(a) && r@[a].contains(b)) <==> exists|t: int|
                        0 <= t < l + 1 && ((#[trigger] linha_complementar(ls[t])) == Some((a, b))
                            || linha_complementar(ls[t]) == Some((b, a))) by {
                    if r@.contains_key(a) && r@[a].contains(b) {
                        let t = choose|t: int|
                            0 <= t < l && ((#[trigger] linha_complementar(ls[t])) == Some((a, b))
                                || linha_complementar(ls[t]) == Some((b, a)));
                    }
                    if exists|t: int|
                        0 <= t < l + 1 && ((#[trigger] linha_complementar(ls[t])) == Some((a, b))
                            || linha_complementar(ls[t]) == Some((b, a))) {
                        let t = choose|t: int|
                            0 <= t < l + 1 && ((#[trigger] linha_complementar(ls[t])) == Some(
                                (a, b),
                            ) || linha_complementar(ls[t]) == Some((b, a)));
                        assert(t < l as int);
                    }
                }
                assert forall|a: Chave| #[trigger] r@.contains_key(a) <==> exists|t: int|
                    0 <= t < l + 1 && (#[trigger] linha_complementar(ls[t])) is Some && (
                    linha_complementar(ls[t]).unwrap().0 == a || linha_complementar(
                        ls[t],
                    ).unwrap().1 == a) by {
                    if r@.contains_key(a) {
                        let t = choose|t: int|
                            0 <= t < l && (#[trigger] linha_complementar(ls[t])) is Some && (
                            linha_complementar(ls[t]).unwrap().0 == a || linha_complementar(
                                ls[t],
                            ).unwrap().1 == a);
                    }
                    if exists|t: int|
                        0 <= t < l + 1 && (#[trigger] linha_complementar(ls[t])) is Some && (
                        linha_complementar(ls[t]).unwrap().0 == a || linha_complementar(
                            ls[t],
                        ).unwrap().1 == a) {
                        let t = choose|t: int|
                            0 <= t < l + 1 && (#[trigger] linha_complementar(ls[t])) is Some && (
                            linha_complementar(ls[t]).unwrap().0 == a || linha_complementar(
                                ls[t],
                            ).unwrap().1 == a);
                        assert(t < l as int);
                    }
                }
            }
        }
        l = l + 1;
    }
    r
}

impl Informacoes {
    /// Builds the whole relationship graph from the two text sources'
    /// lines: load both, close the complement relation, propagate invoices
    /// to complementary manifests, and invert.
    pub fn from_lines(linhas_cte_nfes: &Vec<String>, linhas_complementares: &Vec<String>) -> (r:
        Informacoes)
        ensures
            info_wf(r),
            exists|m1: Map<Chave, Set<Chave>>, m2: Map<Chave, Set<Chave>>|
                {
                    &&& #[trigger] espec_carga_nfes(vistas(linhas_cte_nfes@), m1)
                    &&& #[trigger] espec_carga_comp(vistas(linhas_complementares@), m2)
                    &&& espec_fechamento(m2, r.cte_complementar@)
                    &&& espec_propagacao(m1, r.cte_complementar@, r.cte_nfes@)
                },
            espec_inversao(r.cte_nfes@, r.nfe_ctes@),
    {
        let cte_nfes = carregar_cte_nfes(linhas_cte_nfes);
        let cte_complementar = carregar_complementares(linhas_complementares);
        let ghost m1 = cte_nfes@;
        let ghost m2 = cte_complementar@;
        let mut info = Informacoes {
            nfe_ctes: TabelaChave::vazia(),
            cte_nfes,
            cte_complementar,
            numero_total_de_linhas: 0,
        };
        info.expandir_cte_complementar();
        info.propagar_nfes_para_cte_complementares();
        info.get_nfe_ctes();
        info
    }
}

} // verus!
