//! The aggregation engine: per-key document summaries, their merge rule,
//! and the per-row accumulation over the primary dataset.

use vstd::prelude::*;

use crate::chave::Chave;
use crate::colunas::cancelada_espec;
use crate::colunas::sanitizar_espec;
use crate::colunas::Colunas;
use crate::colunas::CteMetadata;
use crate::colunas::NfeMetadata;
use crate::conjuntos::lema_mapa_dominio;
use crate::conjuntos::lema_mapa_valor;
use crate::conjuntos::mapa_de;
use crate::conjuntos::KeySet;
use crate::conjuntos::TabelaChave;
use crate::config::anexar_espec;
use crate::config::Config;
use crate::informacoes::Informacoes;
use crate::valor::valor_espec;
use vstd::string::StringExecFns;

verus! {

/// The captured metadata of the highest-value row of a key: a
/// manifest-shaped or an invoice-shaped snapshot.
pub enum DocMetadata {
    Cte(CteMetadata),
    Nfe(NfeMetadata),
}

/// The per-key accumulator: item count, running total, highest item value
/// and the snapshot of the row that holds it. Values are in tenths of a
/// thousandth.
pub struct DocSummary {
    pub num_de_itens: u64,
    pub item_valor_total: u128,
    pub item_valor_maximo: u64,
    pub metadata: Option<DocMetadata>,
}

impl View for DocSummary {
    type V = DocSummary;

    /// Summaries stand for themselves in specifications.
    open spec fn view(&self) -> DocSummary {
        *self
    }
}

/// A map from document keys to their summaries.
pub type SummaryMap = TabelaChave<DocSummary>;

/// Saturating addition on counts.
pub open spec fn sat_add_u64(a: u64, b: u64) -> u64 {
    if a + b > u64::MAX {
        u64::MAX
    } else {
        (a + b) as u64
    }
}

/// Saturating addition on totals.
pub open spec fn sat_add_u128(a: u128, b: u128) -> u128 {
    if a + b > u128::MAX {
        u128::MAX
    } else {
        (a + b) as u128
    }
}

/// The summary merge rule: counts and totals add (saturating), the
/// strictly greater maximum wins and brings its metadata; on ties the left
/// side wins.
pub open spec fn merge_espec(a: DocSummary, b: DocSummary) -> DocSummary {
    DocSummary {
        num_de_itens: sat_add_u64(a.num_de_itens, b.num_de_itens),
        item_valor_total: sat_add_u128(a.item_valor_total, b.item_valor_total),
        item_valor_maximo: if b.item_valor_maximo > a.item_valor_maximo {
            b.item_valor_maximo
        } else {
            a.item_valor_maximo
        },
        metadata: if b.item_valor_maximo > a.item_valor_maximo {
            b.metadata
        } else {
            a.metadata
        },
    }
}

/// Merging is commutative on count, total and maximum; the metadata too,
/// whenever the maxima differ (on exact ties the left operand wins by
/// definition).
pub proof fn lema_merge_comutativo(a: DocSummary, b: DocSummary)
    ensures
        merge_espec(a, b).num_de_itens == merge_espec(b, a).num_de_itens,
        merge_espec(a, b).item_valor_total == merge_espec(b, a).item_valor_total,
        merge_espec(a, b).item_valor_maximo == merge_espec(b, a).item_valor_maximo,
        a.item_valor_maximo != b.item_valor_maximo ==> merge_espec(a, b).metadata == merge_espec(
            b,
            a,
        ).metadata,
{
}

/// Merging is associative, metadata included: any grouping of the same
/// summaries yields the same result.
pub proof fn lema_merge_associativo(a: DocSummary, b: DocSummary, c: DocSummary)
    ensures
        merge_espec(merge_espec(a, b), c) == merge_espec(a, merge_espec(b, c)),
{
}

impl DocSummary {
    /// The empty accumulator.
    pub fn vazio() -> (r: DocSummary)
        ensures
            r.num_de_itens == 0,
            r.item_valor_total == 0,
            r.item_valor_maximo == 0,
            r.metadata is None,
    {
        DocSummary { num_de_itens: 0, item_valor_total: 0, item_valor_maximo: 0, metadata: None }
    }

    /// Combines another summary into this one, by the merge rule.
    pub fn merge(&mut self, other: DocSummary)
        ensures
            *final(self) == merge_espec(*old(self), other),
    {
        self.num_de_itens = if self.num_de_itens > u64::MAX - other.num_de_itens {
            u64::MAX
        } else {
            self.num_de_itens + other.num_de_itens
        };
        self.item_valor_total = if self.item_valor_total > u128::MAX - other.item_valor_total {
            u128::MAX
        } else {
            self.item_valor_total + other.item_valor_total
        };
        if other.item_valor_maximo > self.item_valor_maximo {
            self.item_valor_maximo = other.item_valor_maximo;
            self.metadata = other.metadata;
        }
    }
}

/// The merge of two summary maps: keys of either side, summaries merged
/// where both sides hold the key.
pub open spec fn merge_mapas(
    m1: Map<Chave, DocSummary>,
    m2: Map<Chave, DocSummary>,
) -> Map<Chave, DocSummary> {
    Map::new(
        |k: Chave| m1.contains_key(k) || m2.contains_key(k),
        |k: Chave|
            if m1.contains_key(k) && m2.contains_key(k) {
                merge_espec(m1[k], m2[k])
            } else if m1.contains_key(k) {
                m1[k]
            } else {
                m2[k]
            },
    )
}

/// The pair of summary maps a worker accumulates: manifests and invoices.
pub struct SummaryPair {
    pub ctes: SummaryMap,
    pub nfes: SummaryMap,
}

impl SummaryMap {
    /// Merges one summary under `k` into the map.
    fn juntar(&mut self, k: Chave, v: DocSummary)
        requires
            old(self).chaves_distintas(),
        ensures
            final(self).chaves_distintas(),
            final(self)@ == old(self)@.insert(
                k,
                if old(self)@.contains_key(k) {
                    merge_espec(old(self)@[k], v)
                } else {
                    v
                },
            ),
    {
        proof {
            lema_mapa_dominio(self.entradas@, k);
        }
        match self.posicao(&k) {
            Option::Some(i) => {
                proof {
                    lema_mapa_valor(self.entradas@, i as int);
                }
                let mut s = DocSummary::vazio();
                let ghost marcador = s;
                core::mem::swap(&mut s, &mut self.entradas[i].1);
                s.merge(v);
                proof {
                    crate::conjuntos::lema_mapa_atualiza(old(self).entradas@, i as int, marcador);
                }
                self.definir(i, s);
                proof {
                    let meio = old(self).entradas@.update(
                        i as int,
                        (old(self).entradas@[i as int].0, marcador),
                    );
                    assert(meio.update(i as int, (meio[i as int].0, s)) =~= old(
                        self,
                    ).entradas@.update(i as int, (old(self).entradas@[i as int].0, s)));
                    assert(final(self)@ =~= old(self)@.insert(
                        k,
                        merge_espec(old(self)@[k], v),
                    ));
                }
            },
            Option::None => {
                self.empurrar(k, v);
            },
        }
    }
}


/// Whether a row is left out of the aggregation: cancelled, no parseable
/// value, a value below the noise floor, or a key of neither tracked type.
pub open spec fn descartada(row: Colunas) -> bool {
    ||| cancelada_espec(row.cancelada@)
    ||| valor_espec(row.valor_item@) is None
    ||| valor_espec(row.valor_item@).unwrap() == 0
    ||| (!row.chave.eh_cte() && !row.chave.eh_nfe())
}

/// The absolute value of a qualifying row, in tenths of a thousandth.
pub open spec fn va_de(row: Colunas) -> u64 {
    let v = valor_espec(row.valor_item@).unwrap();
    if v < 0 {
        (-(v as int)) as u64
    } else {
        v as u64
    }
}

/// The stored summary at `k`, or the empty accumulator.
pub open spec fn antigo_de(m: Map<Chave, DocSummary>, k: Chave) -> DocSummary {
    if m.contains_key(k) {
        m[k]
    } else {
        DocSummary { num_de_itens: 0, item_valor_total: 0, item_valor_maximo: 0, metadata: None }
    }
}

/// One accumulation step on a summary: the count and total grow, and a
/// first or strictly greater value takes the maximum and the metadata.
pub open spec fn resumo_com(velho: DocSummary, va: u64, meta: DocMetadata) -> DocSummary {
    DocSummary {
        num_de_itens: sat_add_u64(velho.num_de_itens, 1),
        item_valor_total: sat_add_u128(velho.item_valor_total, va as u128),
        item_valor_maximo: if velho.metadata is None || va > velho.item_valor_maximo {
            va
        } else {
            velho.item_valor_maximo
        },
        metadata: if velho.metadata is None || va > velho.item_valor_maximo {
            Some(meta)
        } else {
            velho.metadata
        },
    }
}

/// A manifest snapshot taken from a row: its sixteen fields, with the
/// free-text fields sanitized.
pub open spec fn meta_cte_de(m: CteMetadata, row: Colunas) -> bool {
    &&& m.remetente_cnpj1@ == row.remetente_cnpj1@
    &&& m.remetente_cnpj2@ == row.remetente_cnpj2@
    &&& m.tomador_papel1@ == row.tomador_papel1@
    &&& m.tomador_papel2@ == row.tomador_papel2@
    &&& m.tomador_cnpj1@ == row.tomador_cnpj1@
    &&& m.tomador_cnpj2@ == row.tomador_cnpj2@
    &&& m.inicio_estado@ == row.inicio_estado@
    &&& m.inicio_municipio@ == row.inicio_municipio@
    &&& m.termino_estado@ == row.termino_estado@
    &&& m.termino_municipio@ == row.termino_municipio@
    &&& m.destinatario_cnpj@ == row.destinatario_cnpj@
    &&& m.destinatario_nome@ == row.destinatario_nome@
    &&& m.local_entrega@ == row.local_entrega@
    &&& m.descricao_natureza@ == sanitizar_espec(row.descricao_natureza@)
    &&& m.observacoes_gerais@ == sanitizar_espec(row.observacoes_gerais@)
    &&& m.descricao_cfop@ == row.descricao_cfop@
}

/// An invoice snapshot taken from a row: its ten fields, with the
/// merchandise description sanitized.
pub open spec fn meta_nfe_de(m: NfeMetadata, row: Colunas) -> bool {
    &&& m.contribuinte_nome@ == row.contribuinte_nome@
    &&& m.participante_nome@ == row.participante_nome@
    &&& m.observacoes@ == row.observacoes@
    &&& m.numero_di@ == row.numero_di@
    &&& m.descricao_cfop@ == row.descricao_cfop@
    &&& m.descricao_mercadoria@ == sanitizar_espec(row.descricao_mercadoria@)
    &&& m.ncm@ == row.ncm@
    &&& m.descricao_ncm@ == row.descricao_ncm@
    &&& m.cst_descricao_cofins@ == row.cst_descricao_cofins@
    &&& m.cst_descricao_pis@ == row.cst_descricao_pis@
}

/// What one row does to the two summary maps.
pub open spec fn espec_acumular(
    c0: Map<Chave, DocSummary>,
    n0: Map<Chave, DocSummary>,
    row: Colunas,
    c1: Map<Chave, DocSummary>,
    n1: Map<Chave, DocSummary>,
) -> bool {
    if descartada(row) {
        c1 == c0 && n1 == n0
    } else if row.chave.eh_cte() {
        n1 == n0 && exists|m: CteMetadata| #![auto]
            c1 == c0.insert(
                row.chave,
                resumo_com(antigo_de(c0, row.chave), va_de(row), DocMetadata::Cte(m)),
            ) && meta_cte_de(m, row)
    } else {
        c1 == c0 && exists|m: NfeMetadata| #![auto]
            n1 == n0.insert(
                row.chave,
                resumo_com(antigo_de(n0, row.chave), va_de(row), DocMetadata::Nfe(m)),
            ) && meta_nfe_de(m, row)
    }
}

/// The manifest snapshot of a row, sanitized.
pub fn extrair_cte_sanitizada(row: &Colunas) -> (r: CteMetadata)
    ensures
        meta_cte_de(r, *row),
{
    let mut m = row.extrair_cte_metadata();
    Colunas::sanitizar_campo(&mut m.descricao_natureza);
    Colunas::sanitizar_campo(&mut m.observacoes_gerais);
    m
}

/// The invoice snapshot of a row, sanitized.
pub fn extrair_nfe_sanitizada(row: &Colunas) -> (r: NfeMetadata)
    ensures
        meta_nfe_de(r, *row),
{
    let mut m = row.extrair_nfe_metadata();
    Colunas::sanitizar_campo(&mut m.descricao_mercadoria);
    m
}

impl SummaryMap {
    /// One accumulation step under `k`.
    fn acumular_em(&mut self, k: Chave, va: u64, meta: DocMetadata)
        requires
            old(self).chaves_distintas(),
        ensures
            final(self).chaves_distintas(),
            final(self)@ == old(self)@.insert(k, resumo_com(antigo_de(old(self)@, k), va, meta)),
    {
        proof {
            lema_mapa_dominio(self.entradas@, k);
        }
        match self.posicao(&k) {
            Option::Some(i) => {
                proof {
                    lema_mapa_valor(self.entradas@, i as int);
                }
                let mut s = DocSummary::vazio();
                let ghost marcador = s;
                core::mem::swap(&mut s, &mut self.entradas[i].1);
                proof {
                    crate::conjuntos::lema_mapa_atualiza(old(self).entradas@, i as int, marcador);
                }
                let vence = s.metadata.is_none() || va > s.item_valor_maximo;
                s.num_de_itens = if s.num_de_itens > u64::MAX - 1 {
                    u64::MAX
                } else {
                    s.num_de_itens + 1
                };
                s.item_valor_total = if s.item_valor_total > u128::MAX - (va as u128) {
                    u128::MAX
                } else {
                    s.item_valor_total + (va as u128)
                };
                if vence {
                    s.item_valor_maximo = va;
                    s.metadata = Some(meta);
                }
                self.definir(i, s);
                proof {
                    let meio = old(self).entradas@.update(
                        i as int,
                        (old(self).entradas@[i as int].0, marcador),
                    );
                    assert(meio.update(i as int, (meio[i as int].0, s)) =~= old(
                        self,
                    ).entradas@.update(i as int, (old(self).entradas@[i as int].0, s)));
                    assert(final(self)@ =~= old(self)@.insert(
                        k,
                        resumo_com(antigo_de(old(self)@, k), va, meta),
                    ));
                }
            },
            Option::None => {
                let s = DocSummary {
                    num_de_itens: 1,
                    item_valor_total: va as u128,
                    item_valor_maximo: va,
                    metadata: Some(meta),
                };
                self.empurrar(k, s);
            },
        }
    }
}

/// The monetary parser never yields the lowest machine value, so its
/// magnitude always fits.
proof fn lema_valor_nao_minimo(s: Seq<char>)
    requires
        valor_espec(s) is Some,
    ensures
        valor_espec(s).unwrap() > i64::MIN,
{
}

impl SummaryPair {
    /// Two empty maps.
    pub fn vazio() -> (r: SummaryPair)
        ensures
            r.ctes.chaves_distintas(),
            r.nfes.chaves_distintas(),
            r.ctes@ == Map::<Chave, DocSummary>::empty(),
            r.nfes@ == Map::<Chave, DocSummary>::empty(),
    {
        SummaryPair { ctes: TabelaChave::vazia(), nfes: TabelaChave::vazia() }
    }

    /// Folds one dataset row into the pair: cancelled rows, unparseable or
    /// near-zero values and untracked key types are skipped; otherwise the
    /// row's key gains the item, and a first or strictly greater value
    /// captures the row's sanitized snapshot.
    pub fn acumular_linha(&mut self, row: &Colunas)
        requires
            old(self).ctes.chaves_distintas(),
            old(self).nfes.chaves_distintas(),
        ensures
            final(self).ctes.chaves_distintas(),
            final(self).nfes.chaves_distintas(),
            espec_acumular(
                old(self).ctes@,
                old(self).nfes@,
                *row,
                final(self).ctes@,
                final(self).nfes@,
            ),
    {
        if row.chave_cancelada() {
            return ;
        }
        let v = match row.get_valor_do_item() {
            Option::Some(v) => v,
            Option::None => {
                return ;
            },
        };
        proof {
            lema_valor_nao_minimo(row.valor_item@);
        }
        let va: u64 = if v < 0 {
            (-v) as u64
        } else {
            v as u64
        };
        if va == 0 {
            return ;
        }
        let chave = row.chave;
        if chave.is_cte() {
            let meta = extrair_cte_sanitizada(row);
            let ghost m = meta;
            self.ctes.acumular_em(chave, va, DocMetadata::Cte(meta));
            proof {
                assert(self.ctes@ == old(self).ctes@.insert(
                    row.chave,
                    resumo_com(antigo_de(old(self).ctes@, row.chave), va_de(*row), DocMetadata::Cte(m)),
                ) && meta_cte_de(m, *row));
            }
        } else if chave.is_nfe() {
            let meta = extrair_nfe_sanitizada(row);
            let ghost m = meta;
            self.nfes.acumular_em(chave, va, DocMetadata::Nfe(meta));
            proof {
                assert(self.nfes@ == old(self).nfes@.insert(
                    row.chave,
                    resumo_com(antigo_de(old(self).nfes@, row.chave), va_de(*row), DocMetadata::Nfe(m)),
                ) && meta_nfe_de(m, *row));
            }
        }
    }

    /// Merges another pair into this one, key by key, with the summary
    /// merge rule.
    pub fn merge(&mut self, other: SummaryPair)
        requires
            old(self).ctes.chaves_distintas(),
            old(self).nfes.chaves_distintas(),
            other.ctes.chaves_distintas(),
            other.nfes.chaves_distintas(),
        ensures
            final(self).ctes.chaves_distintas(),
            final(self).nfes.chaves_distintas(),
            final(self).ctes@ == merge_mapas(old(self).ctes@, other.ctes@),
            final(self).nfes@ == merge_mapas(old(self).nfes@, other.nfes@),
    {
        let SummaryPair { ctes, nfes } = other;
        juntar_mapa(&mut self.ctes, ctes);
        juntar_mapa(&mut self.nfes, nfes);
    }
}

/// Folds every entry of `fonte` into `dest` with the merge rule.
fn juntar_mapa(dest: &mut SummaryMap, fonte: SummaryMap)
    requires
        old(dest).chaves_distintas(),
        fonte.chaves_distintas(),
    ensures
        final(dest).chaves_distintas(),
        final(dest)@ == merge_mapas(old(dest)@, fonte@),
{
    let mut fonte = fonte;
    proof {
        assert forall|k: Chave| #[trigger] merge_mapas(dest@, fonte@).contains_key(k) implies
            merge_mapas(old(dest)@, fonte@).contains_key(k) by {}
    }
    let ghost alvo = merge_mapas(dest@, fonte@);
    loop
        invariant
            dest.chaves_distintas(),
            fonte.chaves_distintas(),
            alvo == merge_mapas(dest@, fonte@),
        ensures
            dest.chaves_distintas(),
            dest@ == alvo,
        decreases fonte.entradas@.len(),
    {
        let ghost es = fonte.entradas@;
        match fonte.entradas.pop() {
            Option::Some(par) => {
                let (k, v) = par;
                proof {
                    assert(es.last() == (k, v));
                    assert(fonte.entradas@ == es.drop_last());
                    lema_mapa_dominio(es.drop_last(), k);
                    assert(!mapa_de(es.drop_last()).contains_key(k)) by {
                        if exists|i: int|
                            0 <= i < es.drop_last().len() && (#[trigger] es.drop_last()[i]).0
                                == k {
                            let i = choose|i: int|
                                0 <= i < es.drop_last().len() && (#[trigger] es.drop_last()[i]).0
                                    == k;
                            assert(es[i].0 == es[es.len() - 1].0);
                        }
                    }
                }
                let ghost d0 = dest@;
                dest.juntar(k, v);
                proof {
                    assert(merge_mapas(d0, mapa_de(es)) =~= merge_mapas(
                        dest@,
                        mapa_de(es.drop_last()),
                    )) by {
                        assert(mapa_de(es) == mapa_de(es.drop_last()).insert(k, v));
                        assert forall|kk: Chave|
                            #![auto]
                            merge_mapas(d0, mapa_de(es)).contains_key(kk) == merge_mapas(
                                dest@,
                                mapa_de(es.drop_last()),
                            ).contains_key(kk) && (merge_mapas(d0, mapa_de(es)).contains_key(kk)
                                ==> merge_mapas(d0, mapa_de(es))[kk] == merge_mapas(
                                dest@,
                                mapa_de(es.drop_last()),
                            )[kk]) by {
                            if kk == k {
                            } else {
                            }
                        }
                    }
                }
            },
            Option::None => {
                proof {
                    assert(fonte.entradas@.len() == 0);
                    assert(mapa_de(fonte.entradas@) =~= Map::<Chave, DocSummary>::empty());
                    assert(merge_mapas(dest@, fonte@) =~= dest@);
                }
                break ;
            },
        }
    }
}


/// A ranked counterpart candidate: its key and the two values the ranking
/// reads.
#[derive(Clone, Copy)]
pub struct Candidato {
    pub chave: Chave,
    pub maximo: u64,
    pub total: u128,
}

/// The candidate ranking: highest item value first, then highest total,
/// then lowest key — a strict total order once keys are distinct.
pub open spec fn antes(a: Candidato, b: Candidato) -> bool {
    ||| a.maximo > b.maximo
    ||| (a.maximo == b.maximo && a.total > b.total)
    ||| (a.maximo == b.maximo && a.total == b.total && Chave::spec_menor(a.chave, b.chave))
}

/// Non-strict ranking.
pub open spec fn nao_depois(a: Candidato, b: Candidato) -> bool {
    !antes(b, a)
}

/// The ranking is asymmetric, transitive (in both forms) and total over
/// candidates with distinct keys.
pub proof fn lema_ordem(a: Candidato, b: Candidato, c: Candidato)
    ensures
        antes(a, b) ==> !antes(b, a),
        nao_depois(a, b) && nao_depois(b, c) ==> nao_depois(a, c),
        a.chave != b.chave ==> (antes(a, b) || antes(b, a)),
{
}

/// The candidate read off a summary map at `k`.
pub open spec fn cand_de(rs: Map<Chave, DocSummary>, k: Chave) -> Candidato {
    Candidato { chave: k, maximo: rs[k].item_valor_maximo, total: rs[k].item_valor_total }
}

/// Strict ranking comparison, executable.
fn antes_exec(a: &Candidato, b: &Candidato) -> (r: bool)
    ensures
        r == antes(*a, *b),
{
    a.maximo > b.maximo || (a.maximo == b.maximo && a.total > b.total) || (a.maximo == b.maximo
        && a.total == b.total && a.chave.menor(&b.chave))
}

/// Sorts candidates by the ranking, in place (insertion sort).
fn ordenar(v: &mut Vec<Candidato>)
    requires
        forall|a: int, b: int|
            0 <= a < b < old(v)@.len() ==> (#[trigger] old(v)@[a]).chave != (
            #[trigger] old(v)@[b]).chave,
    ensures
        final(v)@.len() == old(v)@.len(),
        final(v)@.to_set() == old(v)@.to_set(),
        forall|a: int, b: int|
            0 <= a < b < final(v)@.len() ==> antes(#[trigger] final(v)@[a], #[trigger] final(v)@[b]),
{
    let n = v.len();
    let ghost s0 = v@.to_set();
    let mut i: usize = 1;
    if n == 0 {
        return ;
    }
    while i < n
        invariant
            1 <= i <= n,
            n == v@.len(),
            v@.to_set() == s0,
            forall|a: int, b: int|
                0 <= a < b < n ==> (#[trigger] v@[a]).chave != (#[trigger] v@[b]).chave,
            forall|a: int, b: int|
                0 <= a < b < i ==> nao_depois(#[trigger] v@[a], #[trigger] v@[b]),
        decreases n - i,
    {
        let mut j: usize = i;
        while j > 0 && antes_exec(&v[j], &v[j - 1])
            invariant
                0 <= j <= i < n,
                n == v@.len(),
                v@.to_set() == s0,
                forall|a: int, b: int|
                    0 <= a < b < n ==> (#[trigger] v@[a]).chave != (#[trigger] v@[b]).chave,
                forall|a: int, b: int|
                    0 <= a < b <= i as int && b != j ==> nao_depois(
                        #[trigger] v@[a],
                        #[trigger] v@[b],
                    ),
                forall|b: int|
                    j < b <= i as int ==> nao_depois(v@[j as int], #[trigger] v@[b]),
            decreases j,
        {
            let x = v[j - 1];
            let y = v[j];
            let ghost antes_troca = v@;
            v[j - 1] = y;
            v[j] = x;
            proof {
                assert(v@ == antes_troca.update(j - 1, y).update(j as int, x));
                assert(v@.to_set() =~= antes_troca.to_set()) by {
                    assert forall|c: Candidato| #[trigger] v@.to_set().contains(c) implies
                        antes_troca.to_set().contains(c) by {
                        let t = choose|t: int| 0 <= t < v@.len() && v@[t] == c;
                        if t == j - 1 {
                            assert(antes_troca[j as int] == c);
                        } else if t == j as int {
                            assert(antes_troca[j - 1] == c);
                        } else {
                            assert(antes_troca[t] == c);
                        }
                        assert(antes_troca.contains(c));
                    }
                    assert forall|c: Candidato| #[trigger] antes_troca.to_set().contains(c) implies
                        v@.to_set().contains(c) by {
                        let t = choose|t: int|
                            0 <= t < antes_troca.len() && antes_troca[t] == c;
                        if t == j - 1 {
                            assert(v@[j as int] == c);
                        } else if t == j as int {
                            assert(v@[j - 1] == c);
                        } else {
                            assert(v@[t] == c);
                        }
                        assert(v@.contains(c));
                    }
                }
                assert forall|a: int, b: int|
                    0 <= a < b < n implies (#[trigger] v@[a]).chave != (
                #[trigger] v@[b]).chave by {
                    let a2: int = if a == j - 1 {
                        j as int
                    } else if a == j as int {
                        j - 1
                    } else {
                        a
                    };
                    let b2: int = if b == j - 1 {
                        j as int
                    } else if b == j as int {
                        j - 1
                    } else {
                        b
                    };
                    assert(v@[a] == antes_troca[a2] && v@[b] == antes_troca[b2]);
                }
                assert forall|a: int, b: int|
                    0 <= a < b <= i as int && b != j - 1 implies nao_depois(
                    #[trigger] v@[a],
                    #[trigger] v@[b],
                ) by {
                    lema_ordem(antes_troca[j as int], antes_troca[j - 1], antes_troca[j - 1]);
                    if b == j as int {
                        if a == j - 1 {
                            assert(v@[a] == antes_troca[j as int] && v@[b] == antes_troca[j - 1]);
                        } else {
                            assert(v@[a] == antes_troca[a] && v@[b] == antes_troca[j - 1]);
                        }
                    } else {
                        if a == j - 1 {
                            assert(v@[a] == antes_troca[j as int]);
                        } else if a == j as int {
                            assert(v@[a] == antes_troca[j - 1]);
                            assert(nao_depois(antes_troca[j - 1], antes_troca[b]));
                        }
                    }
                }
                assert forall|b: int|
                    j - 1 < b <= i as int implies nao_depois(v@[j - 1], #[trigger] v@[b]) by {
                    lema_ordem(antes_troca[j as int], antes_troca[j - 1], antes_troca[j - 1]);
                    if b == j as int {
                        assert(v@[b] == antes_troca[j - 1]);
                    } else {
                        assert(v@[b] == antes_troca[b]);
                        assert(nao_depois(antes_troca[j as int], antes_troca[b]));
                    }
                }
            }
            j = j - 1;
        }
        proof {
            assert forall|a: int, b: int|
                0 <= a < b < i as int + 1 implies nao_depois(#[trigger] v@[a], #[trigger] v@[b]) by {
                if b == j as int {
                    if j > 0 {
                        assert(nao_depois(v@[j - 1], v@[j as int]));
                        if a < j - 1 {
                            assert(nao_depois(v@[a], v@[j - 1]));
                            lema_ordem(v@[a], v@[j - 1], v@[j as int]);
                        }
                    }
                }
            }
        }
        i = i + 1;
    }
    proof {
        assert forall|a: int, b: int|
            0 <= a < b < v@.len() implies antes(#[trigger] v@[a], #[trigger] v@[b]) by {
            assert(nao_depois(v@[a], v@[b]));
            assert(v@[a].chave != v@[b].chave);
            lema_ordem(v@[a], v@[b], v@[b]);
        }
    }
}

/// The valid, ranked candidate keys: exactly the related keys that have a
/// summary, in strictly descending rank.
pub open spec fn candidatos_validos(
    cand: Seq<Chave>,
    rel: Set<Chave>,
    rs: Map<Chave, DocSummary>,
) -> bool {
    &&& forall|i: int|
        0 <= i < cand.len() ==> rel.contains(#[trigger] cand[i]) && rs.contains_key(cand[i])
    &&& forall|k: Chave| rel.contains(k) && rs.contains_key(k) ==> #[trigger] cand.contains(k)
    &&& forall|i: int, j: int|
        0 <= i < j < cand.len() ==> antes(
            cand_de(rs, #[trigger] cand[i]),
            cand_de(rs, #[trigger] cand[j]),
        )
}

/// Collects and ranks the related keys that have a summary.
fn candidatos_ordenados(rel: &KeySet, rs: &SummaryMap) -> (r: Vec<Candidato>)
    requires
        rel.wf(),
        rs.chaves_distintas(),
    ensures
        candidatos_validos(r@.map_values(|c: Candidato| c.chave), rel@, rs@),
        forall|i: int| 0 <= i < r@.len() ==> #[trigger] r@[i] == cand_de(rs@, r@[i].chave),
{
    let mut v: Vec<Candidato> = Vec::new();
    let nr = rel.itens.len();
    let mut t: usize = 0;
    while t < nr
        invariant
            t <= nr,
            nr == rel.itens@.len(),
            rel.wf(),
            rs.chaves_distintas(),
            forall|i: int| 0 <= i < v@.len() ==> #[trigger] v@[i] == cand_de(rs@, v@[i].chave),
            forall|i: int|
                0 <= i < v@.len() ==> rel@.contains((#[trigger] v@[i]).chave) && rs@.contains_key(
                    v@[i].chave,
                ),
            forall|i: int, j: int|
                0 <= i < j < v@.len() ==> (#[trigger] v@[i]).chave != (#[trigger] v@[j]).chave,
            forall|k: Chave|
                rel@.contains(k) && rs@.contains_key(k) && rel.itens@.take(t as int).contains(k)
                    ==> exists|i: int| 0 <= i < v@.len() && (#[trigger] v@[i]).chave == k,
            forall|i: int|
                0 <= i < v@.len() ==> rel.itens@.take(t as int).contains((#[trigger] v@[i]).chave),
        decreases nr - t,
    {
        let k = rel.itens[t];
        let ghost va = v@;
        match rs.obter(&k) {
            Option::Some(su) => {
                let c = Candidato {
                    chave: k,
                    maximo: su.item_valor_maximo,
                    total: su.item_valor_total,
                };
                proof {
                    assert(rel.itens@.contains(k));
                    assert(rel@.contains(k));
                    assert forall|i: int, j: int|
                        0 <= i < j < v@.len() + 1 implies (#[trigger] v@.push(c)[i]).chave != (
                    #[trigger] v@.push(c)[j]).chave by {
                        if j == v@.len() {
                            if v@.push(c)[i].chave == k {
                                assert(v@[i] == v@.push(c)[i]);
                                assert(rel.itens@.take(t as int).contains(k));
                                let w = choose|w: int|
                                    0 <= w < t && #[trigger] rel.itens@.take(t as int)[w] == k;
                                assert(rel.itens@[w] == rel.itens@[t as int]);
                            }
                        }
                    }
                }
                v.push(c);
            },
            Option::None => {},
        }
        proof {
            assert forall|k2: Chave|
                rel@.contains(k2) && rs@.contains_key(k2) && rel.itens@.take(t as int + 1).contains(
                    k2,
                ) implies exists|i: int| 0 <= i < v@.len() && (#[trigger] v@[i]).chave == k2 by {
                let w = choose|w: int| 0 <= w < t + 1 && #[trigger] rel.itens@.take(t as int + 1)[w] == k2;
                if w < t as int {
                    assert(rel.itens@.take(t as int)[w] == k2);
                    assert(rel.itens@.take(t as int).contains(k2));
                    let i = choose|i: int| 0 <= i < va.len() && (#[trigger] va[i]).chave == k2;
                    assert(v@[i] == va[i]);
                } else {
                    assert(k2 == rel.itens@[t as int]);
                    assert(v@[v@.len() - 1].chave == k2);
                }
            }
            assert forall|i: int|
                0 <= i < v@.len() implies rel.itens@.take(t as int + 1).contains(
                (#[trigger] v@[i]).chave,
            ) by {
                if rel.itens@.take(t as int).contains(v@[i].chave) {
                    let w = choose|w: int|
                        0 <= w < t && #[trigger] rel.itens@.take(t as int)[w] == v@[i].chave;
                    assert(rel.itens@.take(t as int + 1)[w] == v@[i].chave);
                } else {
                    assert(v@[i].chave == rel.itens@[t as int]);
                    assert(rel.itens@.take(t as int + 1)[t as int] == v@[i].chave);
                }
            }
        }
        t = t + 1;
    }
    proof {
        assert(rel.itens@.take(nr as int) =~= rel.itens@);
    }
    let ghost v0 = v@;
    ordenar(&mut v);
    proof {
        let ks = v@.map_values(|c: Candidato| c.chave);
        assert forall|i: int|
            0 <= i < v@.len() implies #[trigger] v@[i] == cand_de(rs@, v@[i].chave)
            && rel@.contains(v@[i].chave) && rs@.contains_key(v@[i].chave) by {
            assert(v@.contains(v@[i]));
            assert(v@.to_set().contains(v@[i]));
            assert(v0.to_set().contains(v@[i]));
            let w = choose|w: int| 0 <= w < v0.len() && v0[w] == v@[i];
        }
        assert forall|k: Chave| rel@.contains(k) && rs@.contains_key(k) implies #[trigger] ks.contains(
            k,
        ) by {
            let i = choose|i: int| 0 <= i < v0.len() && (#[trigger] v0[i]).chave == k;
            assert(v0.to_set().contains(v0[i]));
            assert(v@.to_set().contains(v0[i]));
            let p = choose|p: int| 0 <= p < v@.len() && v@[p] == v0[i];
            assert(ks[p] == k);
        }
        assert forall|i: int, j: int|
            0 <= i < j < ks.len() implies antes(
            cand_de(rs@, #[trigger] ks[i]),
            cand_de(rs@, #[trigger] ks[j]),
        ) by {
            assert(antes(v@[i], v@[j]));
            assert(v@[i] == cand_de(rs@, ks[i]) && v@[j] == cand_de(rs@, ks[j]));
        }
    }
    v
}


/// The keys of a candidate list, joined with a comma and a space.
pub open spec fn lista_chaves_espec(cand: Seq<Chave>) -> Seq<char>
    decreases cand.len(),
{
    if cand.len() == 0 {
        Seq::empty()
    } else if cand.len() == 1 {
        cand[0]@
    } else {
        cand[0]@ + ", "@ + lista_chaves_espec(cand.skip(1))
    }
}

/// Appending one key extends the joined list with a separator.
proof fn lema_lista_push(s: Seq<Chave>, x: Chave)
    ensures
        lista_chaves_espec(s.push(x)) == if s.len() == 0 {
            x@
        } else {
            lista_chaves_espec(s) + ", "@ + x@
        },
    decreases s.len(),
{
    let p = s.push(x);
    if s.len() == 0 {
        assert(p[0] == x);
        assert(lista_chaves_espec(p) =~= x@);
    } else {
        assert(p.skip(1) =~= s.skip(1).push(x));
        lema_lista_push(s.skip(1), x);
        if s.len() == 1 {
            assert(s.skip(1).len() == 0);
            assert(lista_chaves_espec(p) =~= lista_chaves_espec(s) + ", "@ + x@);
        } else {
            assert(lista_chaves_espec(p) =~= lista_chaves_espec(s) + ", "@ + x@);
        }
    }
}

/// The saturating sum of the candidates' totals.
pub open spec fn soma_totais(cand: Seq<Chave>, rs: Map<Chave, DocSummary>) -> u128
    decreases cand.len(),
{
    if cand.len() == 0 {
        0
    } else {
        sat_add_u128(rs[cand[0]].item_valor_total, soma_totais(cand.skip(1), rs))
    }
}

/// The cross-reference summary string: `ESTE: <chave>, <n> OUTRO(s):
/// [<keys>] de valor total = <total>`.
pub open spec fn resumo_espec(
    rot_este: Seq<char>,
    rot_outro: Seq<char>,
    chave: Chave,
    cand: Seq<Chave>,
    soma: u128,
) -> Seq<char> {
    rot_este + ": "@ + chave@ + ", "@ + crate::texto::texto_decimal(cand.len()) + " "@ + rot_outro
        + (if cand.len() > 1 {
        "s"@
    } else {
        Seq::<char>::empty()
    }) + ": ["@ + lista_chaves_espec(cand) + "] de valor total = "@ + crate::valor::texto_valor(
        soma as nat,
    )
}

/// The first `n` candidates, or all of them when fewer.
pub open spec fn recorte(cand: Seq<Chave>, n: int) -> Seq<Chave> {
    if cand.len() <= n {
        cand
    } else {
        cand.take(n)
    }
}

/// Builds the joined key list of the candidates.
fn montar_lista(cands: &Vec<Candidato>) -> (r: String)
    requires
        forall|i: int| 0 <= i < cands@.len() ==> (#[trigger] cands@[i]).chave.wf(),
    ensures
        r@ == lista_chaves_espec(cands@.map_values(|c: Candidato| c.chave)),
{
    proof {
        reveal_strlit(", ");
    }
    let ghost ks = cands@.map_values(|c: Candidato| c.chave);
    let mut r = String::new();
    let n = cands.len();
    let mut i: usize = 0;
    proof {
        assert(ks.take(0) =~= Seq::<Chave>::empty());
        assert(r@ =~= lista_chaves_espec(ks.take(0)));
    }
    while i < n
        invariant
            i <= n,
            n == cands@.len(),
            ks == cands@.map_values(|c: Candidato| c.chave),
            forall|t: int| 0 <= t < cands@.len() ==> (#[trigger] cands@[t]).chave.wf(),
            r@ == lista_chaves_espec(ks.take(i as int)),
        decreases n - i,
    {
        if i > 0 {
            r.append(", ");
        }
        let texto = cands[i].chave.to_text();
        r.append(texto.as_str());
        proof {
            lema_lista_push(ks.take(i as int), ks[i as int]);
            assert(ks.take(i as int + 1) =~= ks.take(i as int).push(ks[i as int]));
            assert(r@ =~= lista_chaves_espec(ks.take(i as int + 1)));
        }
        i = i + 1;
    }
    proof {
        assert(ks.take(n as int) =~= ks);
    }
    r
}

/// Adds up the candidates' totals, saturating.
fn somar_totais(cands: &Vec<Candidato>, Ghost(rs): Ghost<Map<Chave, DocSummary>>) -> (r: u128)
    requires
        forall|i: int| 0 <= i < cands@.len() ==> #[trigger] cands@[i] == cand_de(rs, cands@[i].chave),
    ensures
        r == soma_totais(cands@.map_values(|c: Candidato| c.chave), rs),
{
    let ghost ks = cands@.map_values(|c: Candidato| c.chave);
    let n = cands.len();
    let mut acc: u128 = 0;
    let mut i: usize = n;
    proof {
        assert(ks.skip(n as int) =~= Seq::<Chave>::empty());
    }
    while i > 0
        invariant
            i <= n,
            n == cands@.len(),
            ks == cands@.map_values(|c: Candidato| c.chave),
            forall|t: int|
                0 <= t < cands@.len() ==> #[trigger] cands@[t] == cand_de(rs, cands@[t].chave),
            acc == soma_totais(ks.skip(i as int), rs),
        decreases i,
    {
        i = i - 1;
        let t = cands[i].total;
        acc = if t > u128::MAX - acc {
            u128::MAX
        } else {
            t + acc
        };
        proof {
            assert(ks.skip(i as int).skip(1) =~= ks.skip(i as int + 1));
            assert(ks.skip(i as int)[0] == ks[i as int]);
            assert(rs[ks[i as int]].item_valor_total == t);
        }
    }
    proof {
        assert(ks.skip(0) =~= ks);
    }
    acc
}

/// Builds the cross-reference summary string.
fn montar_resumo(
    rot_este: &str,
    rot_outro: &str,
    chave: &Chave,
    cands: &Vec<Candidato>,
    soma: u128,
) -> (r: String)
    requires
        chave.wf(),
        forall|i: int| 0 <= i < cands@.len() ==> (#[trigger] cands@[i]).chave.wf(),
    ensures
        r@ == resumo_espec(
            rot_este@,
            rot_outro@,
            *chave,
            cands@.map_values(|c: Candidato| c.chave),
            soma,
        ),
{
    proof {
        reveal_strlit(": ");
        reveal_strlit(", ");
        reveal_strlit(" ");
        reveal_strlit("s");
        reveal_strlit(": [");
        reveal_strlit("] de valor total = ");
    }
    let mut r = String::new();
    r.append(rot_este);
    r.append(": ");
    let tchave = chave.to_text();
    r.append(tchave.as_str());
    r.append(", ");
    let n = cands.len();
    let tnum = crate::texto::decimal_u128(n as u128);
    r.append(tnum.as_str());
    r.append(" ");
    r.append(rot_outro);
    if n > 1 {
        r.append("s");
    }
    r.append(": [");
    let tlista = montar_lista(cands);
    r.append(tlista.as_str());
    r.append("] de valor total = ");
    let tvalor = crate::valor::valor_em_texto(soma);
    r.append(tvalor.as_str());
    proof {
        let ks = cands@.map_values(|c: Candidato| c.chave);
        assert(ks.len() == n);
        assert(r@ =~= resumo_espec(rot_este@, rot_outro@, *chave, ks, soma));
    }
    r
}
/// The sixteen invoice-row fields that receive manifest metadata.
pub struct CamposNfe {
    pub remetente_cnpj1: Seq<char>,
    pub remetente_cnpj2: Seq<char>,
    pub tomador_papel1: Seq<char>,
    pub tomador_papel2: Seq<char>,
    pub tomador_cnpj1: Seq<char>,
    pub tomador_cnpj2: Seq<char>,
    pub inicio_estado: Seq<char>,
    pub inicio_municipio: Seq<char>,
    pub termino_estado: Seq<char>,
    pub termino_municipio: Seq<char>,
    pub destinatario_cnpj: Seq<char>,
    pub destinatario_nome: Seq<char>,
    pub local_entrega: Seq<char>,
    pub descricao_natureza: Seq<char>,
    pub observacoes_gerais: Seq<char>,
    pub descricao_cfop: Seq<char>,
}

/// Those fields, read off a row.
pub open spec fn campos_nfe(row: Colunas) -> CamposNfe {
    CamposNfe {
        remetente_cnpj1: row.remetente_cnpj1@,
        remetente_cnpj2: row.remetente_cnpj2@,
        tomador_papel1: row.tomador_papel1@,
        tomador_papel2: row.tomador_papel2@,
        tomador_cnpj1: row.tomador_cnpj1@,
        tomador_cnpj2: row.tomador_cnpj2@,
        inicio_estado: row.inicio_estado@,
        inicio_municipio: row.inicio_municipio@,
        termino_estado: row.termino_estado@,
        termino_municipio: row.termino_municipio@,
        destinatario_cnpj: row.destinatario_cnpj@,
        destinatario_nome: row.destinatario_nome@,
        local_entrega: row.local_entrega@,
        descricao_natureza: row.descricao_natureza@,
        observacoes_gerais: row.observacoes_gerais@,
        descricao_cfop: row.descricao_cfop@,
    }
}

/// One manifest snapshot applied to the destination fields, each through
/// the budgeted append.
pub open spec fn aplicar_meta_cte(c: CamposNfe, m: CteMetadata, max: nat) -> CamposNfe {
    CamposNfe {
        remetente_cnpj1: anexar_espec(c.remetente_cnpj1, m.remetente_cnpj1@, "CT-e"@, max),
        remetente_cnpj2: anexar_espec(c.remetente_cnpj2, m.remetente_cnpj2@, "CT-e"@, max),
        tomador_papel1: anexar_espec(c.tomador_papel1, m.tomador_papel1@, "CT-e"@, max),
        tomador_papel2: anexar_espec(c.tomador_papel2, m.tomador_papel2@, "CT-e"@, max),
        tomador_cnpj1: anexar_espec(c.tomador_cnpj1, m.tomador_cnpj1@, "CT-e"@, max),
        tomador_cnpj2: anexar_espec(c.tomador_cnpj2, m.tomador_cnpj2@, "CT-e"@, max),
        inicio_estado: anexar_espec(c.inicio_estado, m.inicio_estado@, "CT-e"@, max),
        inicio_municipio: anexar_espec(c.inicio_municipio, m.inicio_municipio@, "CT-e"@, max),
        termino_estado: anexar_espec(c.termino_estado, m.termino_estado@, "CT-e"@, max),
        termino_municipio: anexar_espec(c.termino_municipio, m.termino_municipio@, "CT-e"@, max),
        destinatario_cnpj: anexar_espec(c.destinatario_cnpj, m.destinatario_cnpj@, "CT-e"@, max),
        destinatario_nome: anexar_espec(c.destinatario_nome, m.destinatario_nome@, "CT-e"@, max),
        local_entrega: anexar_espec(c.local_entrega, m.local_entrega@, "CT-e"@, max),
        descricao_natureza: anexar_espec(c.descricao_natureza, m.descricao_natureza@, "CT-e"@, max),
        observacoes_gerais: anexar_espec(c.observacoes_gerais, m.observacoes_gerais@, "CT-e"@, max),
        descricao_cfop: anexar_espec(c.descricao_cfop, m.descricao_cfop@, "CT-e"@, max),
    }
}

/// A ranked candidate list applied in order: each candidate with a
/// manifest-shaped snapshot contributes, the rest are passed over.
pub open spec fn aplicar_ctes(
    c: CamposNfe,
    cand: Seq<Chave>,
    rs: Map<Chave, DocSummary>,
    max: nat,
) -> CamposNfe
    decreases cand.len(),
{
    if cand.len() == 0 {
        c
    } else {
        let c2 = match rs[cand[0]].metadata {
            Option::Some(DocMetadata::Cte(m)) => aplicar_meta_cte(c, m, max),
            _ => c,
        };
        aplicar_ctes(c2, cand.skip(1), rs, max)
    }
}

/// The ten manifest-row fields that receive invoice metadata.
pub struct CamposCte {
    pub contribuinte_nome: Seq<char>,
    pub participante_nome: Seq<char>,
    pub observacoes: Seq<char>,
    pub numero_di: Seq<char>,
    pub descricao_cfop: Seq<char>,
    pub descricao_mercadoria: Seq<char>,
    pub ncm: Seq<char>,
    pub descricao_ncm: Seq<char>,
    pub cst_descricao_cofins: Seq<char>,
    pub cst_descricao_pis: Seq<char>,
}

/// Those fields, read off a row.
pub open spec fn campos_cte(row: Colunas) -> CamposCte {
    CamposCte {
        contribuinte_nome: row.contribuinte_nome@,
        participante_nome: row.participante_nome@,
        observacoes: row.observacoes@,
        numero_di: row.numero_di@,
        descricao_cfop: row.descricao_cfop@,
        descricao_mercadoria: row.descricao_mercadoria@,
        ncm: row.ncm@,
        descricao_ncm: row.descricao_ncm@,
        cst_descricao_cofins: row.cst_descricao_cofins@,
        cst_descricao_pis: row.cst_descricao_pis@,
    }
}

/// One invoice snapshot applied to the destination fields: nine budgeted
/// appends, and a non-trivial commodity code overwriting the row's own.
pub open spec fn aplicar_meta_nfe(c: CamposCte, m: NfeMetadata, max: nat) -> CamposCte {
    CamposCte {
        contribuinte_nome: anexar_espec(c.contribuinte_nome, m.contribuinte_nome@, "NF-e"@, max),
        participante_nome: anexar_espec(c.participante_nome, m.participante_nome@, "NF-e"@, max),
        observacoes: anexar_espec(c.observacoes, m.observacoes@, "NF-e"@, max),
        numero_di: anexar_espec(c.numero_di, m.numero_di@, "NF-e"@, max),
        descricao_cfop: anexar_espec(c.descricao_cfop, m.descricao_cfop@, "NF-e"@, max),
        descricao_mercadoria: anexar_espec(c.descricao_mercadoria, m.descricao_mercadoria@, "NF-e"@, max),
        ncm: if crate::colunas::ncm_valido_espec(m.ncm@) {
            m.ncm@
        } else {
            c.ncm
        },
        descricao_ncm: anexar_espec(c.descricao_ncm, m.descricao_ncm@, "NF-e"@, max),
        cst_descricao_cofins: anexar_espec(c.cst_descricao_cofins, m.cst_descricao_cofins@, "NF-e"@, max),
        cst_descricao_pis: anexar_espec(c.cst_descricao_pis, m.cst_descricao_pis@, "NF-e"@, max),
    }
}

/// A ranked candidate list applied in order: each candidate with an
/// invoice-shaped snapshot contributes, the rest are passed over.
pub open spec fn aplicar_nfes(
    c: CamposCte,
    cand: Seq<Chave>,
    rs: Map<Chave, DocSummary>,
    max: nat,
) -> CamposCte
    decreases cand.len(),
{
    if cand.len() == 0 {
        c
    } else {
        let c2 = match rs[cand[0]].metadata {
            Option::Some(DocMetadata::Nfe(m)) => aplicar_meta_nfe(c, m, max),
            _ => c,
        };
        aplicar_nfes(c2, cand.skip(1), rs, max)
    }
}

/// Equality of everything the invoice-row enrichment never touches.
pub open spec fn fora_destino_nfe(a: Colunas, b: Colunas) -> bool {
    &&& a.chave == b.chave
    &&& a.contribuinte_cnpj == b.contribuinte_cnpj
    &&& a.contribuinte_nome == b.contribuinte_nome
    &&& a.entrada_ou_saida == b.entrada_ou_saida
    &&& a.participante_cnpj == b.participante_cnpj
    &&& a.participante_nome == b.participante_nome
    &&& a.regime_tributario == b.regime_tributario
    &&& a.observacoes == b.observacoes
    &&& a.remetente_nome == b.remetente_nome
    &&& a.remetente_municipio == b.remetente_municipio
    &&& a.cancelada == b.cancelada
    &&& a.origem == b.origem
    &&& a.natureza_bc == b.natureza_bc
    &&& a.modelo == b.modelo
    &&& a.num_doc == b.num_doc
    &&& a.dia_emissao == b.dia_emissao
    &&& a.numero_di == b.numero_di
    &&& a.numero_item == b.numero_item
    &&& a.cfop == b.cfop
    &&& a.descricao_mercadoria == b.descricao_mercadoria
    &&& a.ncm == b.ncm
    &&& a.descricao_ncm == b.descricao_ncm
    &&& a.aliq_cofins == b.aliq_cofins
    &&& a.aliq_pis == b.aliq_pis
    &&& a.cst_descricao_cofins == b.cst_descricao_cofins
    &&& a.cst_descricao_pis == b.cst_descricao_pis
    &&& a.valor_total == b.valor_total
    &&& a.valor_item == b.valor_item
    &&& a.valor_desconto == b.valor_desconto
    &&& a.valor_seguro == b.valor_seguro
    &&& a.valor_cofins == b.valor_cofins
    &&& a.valor_pis == b.valor_pis
    &&& a.valor_ipi == b.valor_ipi
    &&& a.valor_bc_iss == b.valor_bc_iss
    &&& a.valor_iss == b.valor_iss
    &&& a.aliq_icms == b.aliq_icms
    &&& a.valor_bc_icms == b.valor_bc_icms
    &&& a.valor_icms == b.valor_icms
    &&& a.valor_icms_sub == b.valor_icms_sub
}

/// Equality of everything the manifest-row enrichment never touches.
pub open spec fn fora_destino_cte(a: Colunas, b: Colunas) -> bool {
    &&& a.chave == b.chave
    &&& a.contribuinte_cnpj == b.contribuinte_cnpj
    &&& a.entrada_ou_saida == b.entrada_ou_saida
    &&& a.participante_cnpj == b.participante_cnpj
    &&& a.regime_tributario == b.regime_tributario
    &&& a.remetente_cnpj1 == b.remetente_cnpj1
    &&& a.remetente_cnpj2 == b.remetente_cnpj2
    &&& a.remetente_nome == b.remetente_nome
    &&& a.remetente_municipio == b.remetente_municipio
    &&& a.tomador_papel1 == b.tomador_papel1
    &&& a.tomador_papel2 == b.tomador_papel2
    &&& a.tomador_cnpj1 == b.tomador_cnpj1
    &&& a.tomador_cnpj2 == b.tomador_cnpj2
    &&& a.inicio_estado == b.inicio_estado
    &&& a.inicio_municipio == b.inicio_municipio
    &&& a.termino_estado == b.termino_estado
    &&& a.termino_municipio == b.termino_municipio
    &&& a.destinatario_cnpj == b.destinatario_cnpj
    &&& a.destinatario_nome == b.destinatario_nome
    &&& a.local_entrega == b.local_entrega
    &&& a.descricao_natureza == b.descricao_natureza
    &&& a.cancelada == b.cancelada
    &&& a.origem == b.origem
    &&& a.natureza_bc == b.natureza_bc
    &&& a.modelo == b.modelo
    &&& a.num_doc == b.num_doc
    &&& a.observacoes_gerais == b.observacoes_gerais
    &&& a.dia_emissao == b.dia_emissao
    &&& a.numero_item == b.numero_item
    &&& a.cfop == b.cfop
    &&& a.aliq_cofins == b.aliq_cofins
    &&& a.aliq_pis == b.aliq_pis
    &&& a.valor_total == b.valor_total
    &&& a.valor_item == b.valor_item
    &&& a.valor_desconto == b.valor_desconto
    &&& a.valor_seguro == b.valor_seguro
    &&& a.valor_cofins == b.valor_cofins
    &&& a.valor_pis == b.valor_pis
    &&& a.valor_ipi == b.valor_ipi
    &&& a.valor_bc_iss == b.valor_bc_iss
    &&& a.valor_iss == b.valor_iss
    &&& a.aliq_icms == b.aliq_icms
    &&& a.valor_bc_icms == b.valor_bc_icms
    &&& a.valor_icms == b.valor_icms
    &&& a.valor_icms_sub == b.valor_icms_sub
}

/// What enriching an invoice row from its manifests does: no change when
/// nothing is related or summarized; otherwise the cross-reference field
/// holds the summary string of the ranked candidates, and the destination
/// fields hold the ranked injections, up to the configured bound.
pub open spec fn espec_adicionar_ctes(
    antigo: Colunas,
    novo: Colunas,
    r: bool,
    rel_map: Map<Chave, Set<Chave>>,
    rs: Map<Chave, DocSummary>,
    max_info: nat,
    max_char: nat,
) -> bool {
    &&& r == (rel_map.contains_key(antigo.chave) && exists|c: Chave| #[trigger]
        rel_map[antigo.chave].contains(c) && rs.contains_key(c))
    &&& (!r ==> novo == antigo)
    &&& (r ==> exists|cand: Seq<Chave>| #![auto]
        {
            &&& candidatos_validos(cand, rel_map[antigo.chave], rs)
            &&& novo.chave_de_acesso@ == resumo_espec(
                "NFe"@,
                "CTe"@,
                antigo.chave,
                cand,
                soma_totais(cand, rs),
            )
            &&& campos_nfe(novo) == aplicar_ctes(
                campos_nfe(antigo),
                recorte(cand, max_info as int),
                rs,
                max_char,
            )
            &&& fora_destino_nfe(antigo, novo)
        })
}

/// What enriching a manifest row from its invoices does, symmetrically.
pub open spec fn espec_adicionar_nfes(
    antigo: Colunas,
    novo: Colunas,
    r: bool,
    rel_map: Map<Chave, Set<Chave>>,
    rs: Map<Chave, DocSummary>,
    max_info: nat,
    max_char: nat,
) -> bool {
    &&& r == (rel_map.contains_key(antigo.chave) && exists|c: Chave| #[trigger]
        rel_map[antigo.chave].contains(c) && rs.contains_key(c))
    &&& (!r ==> novo == antigo)
    &&& (r ==> exists|cand: Seq<Chave>| #![auto]
        {
            &&& candidatos_validos(cand, rel_map[antigo.chave], rs)
            &&& novo.chave_de_acesso@ == resumo_espec(
                "CTe"@,
                "NFe"@,
                antigo.chave,
                cand,
                soma_totais(cand, rs),
            )
            &&& campos_cte(novo) == aplicar_nfes(
                campos_cte(antigo),
                recorte(cand, max_info as int),
                rs,
                max_char,
            )
            &&& fora_destino_cte(antigo, novo)
        })
}


/// Injects manifest summaries into an invoice row: writes the
/// cross-reference summary and appends the top-ranked manifests' captured
/// fields, within the configured bounds.
#[verifier::rlimit(100)]
pub fn adicionar_info_de_ctes_em_nfe(
    row_nfe: &mut Colunas,
    config: &Config,
    info: &Informacoes,
    cte_info: &SummaryMap,
) -> (r: bool)
    requires
        crate::informacoes::info_wf(*info),
        cte_info.chaves_distintas(),
        forall|k: Chave| #[trigger] cte_info@.contains_key(k) ==> k.wf(),
        old(row_nfe).chave.wf(),
    ensures
        espec_adicionar_ctes(
            *old(row_nfe),
            *final(row_nfe),
            r,
            info.nfe_ctes@,
            cte_info@,
            config.max_info as nat,
            config.max_char as nat,
        ),
{
    let chave = row_nfe.chave;
    let rel = match info.nfe_ctes.obter(&chave) {
        Option::Some(s) => s,
        Option::None => {
            return false;
        },
    };
    proof {
        assert(rel.wf()) by {
            let i = choose|i: int|
                0 <= i < info.nfe_ctes.entradas@.len() && #[trigger] info.nfe_ctes.entradas@[i]
                    == (chave, *rel);
        }
    }
    let cands = candidatos_ordenados(rel, cte_info);
    let ghost ks = cands@.map_values(|c: Candidato| c.chave);
    proof {
        assert forall|t: int|
            0 <= t < cands@.len() implies #[trigger] cands@[t] == cand_de(
            cte_info@,
            cands@[t].chave,
        ) && cte_info@.contains_key(cands@[t].chave) && cands@[t].chave.wf() by {
            assert(ks[t] == cands@[t].chave);
        }
    }
    if cands.len() == 0 {
        proof {
            if exists|c: Chave| #[trigger] info.nfe_ctes@[chave].contains(c)
                && cte_info@.contains_key(c) {
                let c = choose|c: Chave| #[trigger]
                    info.nfe_ctes@[chave].contains(c) && cte_info@.contains_key(c);
                assert(ks.contains(c));
            }
        }
        return false;
    }
    proof {
        assert(info.nfe_ctes@[chave].contains(ks[0]) && cte_info@.contains_key(ks[0]));
    }
    let soma = somar_totais(&cands, Ghost(cte_info@));
    let resumo = montar_resumo("NFe", "CTe", &chave, &cands, soma);
    proof {
        reveal_strlit("NFe");
        reveal_strlit("CTe");
    }
    row_nfe.chave_de_acesso = resumo;
    let ghost meio = *row_nfe;
    let limite = if config.max_info < cands.len() {
        config.max_info
    } else {
        cands.len()
    };
    let ghost eff = recorte(ks, config.max_info as int);
    proof {
        assert(eff =~= ks.take(limite as int));
        assert(eff.skip(0) =~= eff);
        assert(campos_nfe(*row_nfe) == campos_nfe(*old(row_nfe)));
    }
    let mut i: usize = 0;
    while i < limite
        invariant
            i <= limite,
            limite <= cands@.len(),
            ks == cands@.map_values(|c: Candidato| c.chave),
            eff == ks.take(limite as int),
            cte_info.chaves_distintas(),
            forall|t: int|
                0 <= t < cands@.len() ==> #[trigger] cands@[t] == cand_de(cte_info@, cands@[t].chave)
                    && cte_info@.contains_key(cands@[t].chave),
            aplicar_ctes(campos_nfe(*row_nfe), eff.skip(i as int), cte_info@, config.max_char as nat)
                == aplicar_ctes(campos_nfe(meio), eff, cte_info@, config.max_char as nat),
            row_nfe.chave_de_acesso == meio.chave_de_acesso,
            fora_destino_nfe(meio, *row_nfe),
        decreases limite - i,
    {
        let k = cands[i].chave;
        let ghost antes_inj = *row_nfe;
        proof {
            assert(eff.skip(i as int)[0] == ks[i as int]);
            assert(eff.skip(i as int).skip(1) =~= eff.skip(i as int + 1));
            assert(ks[i as int] == k);
        }
        match cte_info.obter(&k) {
            Option::Some(su) => {
                proof {
                    assert(*su == cte_info@[k]);
                }
                match &su.metadata {
                    Option::Some(DocMetadata::Cte(c)) => {
                        row_nfe.injetar_metadata_cte(config, c);
                        proof {
                            assert(campos_nfe(*row_nfe) == aplicar_meta_cte(
                                campos_nfe(antes_inj),
                                *c,
                                config.max_char as nat,
                            ));
                            assert(aplicar_ctes(
                                campos_nfe(antes_inj),
                                eff.skip(i as int),
                                cte_info@,
                                config.max_char as nat,
                            ) == aplicar_ctes(
                                campos_nfe(*row_nfe),
                                eff.skip(i as int + 1),
                                cte_info@,
                                config.max_char as nat,
                            ));
                        }
                    },
                    _ => {
                        proof {
                            assert(aplicar_ctes(
                                campos_nfe(antes_inj),
                                eff.skip(i as int),
                                cte_info@,
                                config.max_char as nat,
                            ) == aplicar_ctes(
                                campos_nfe(*row_nfe),
                                eff.skip(i as int + 1),
                                cte_info@,
                                config.max_char as nat,
                            ));
                        }
                    },
                }
            },
            Option::None => {
                proof {
                    assert(false);
                }
            },
        }
        i = i + 1;
    }
    proof {
        assert(eff.skip(limite as int) =~= Seq::<Chave>::empty());
        assert(espec_adicionar_ctes(
            *old(row_nfe),
            *row_nfe,
            true,
            info.nfe_ctes@,
            cte_info@,
            config.max_info as nat,
            config.max_char as nat,
        )) by {
            assert(candidatos_validos(ks, info.nfe_ctes@[old(row_nfe).chave], cte_info@));
            assert(row_nfe.chave_de_acesso@ == resumo_espec(
                "NFe"@,
                "CTe"@,
                old(row_nfe).chave,
                ks,
                soma_totais(ks, cte_info@),
            ));
            assert(campos_nfe(*row_nfe) == aplicar_ctes(
                campos_nfe(*old(row_nfe)),
                recorte(ks, config.max_info as int),
                cte_info@,
                config.max_char as nat,
            ));
            assert(fora_destino_nfe(*old(row_nfe), *row_nfe));
        }
    }
    true
}

/// Injects invoice summaries into a manifest row, symmetrically; a
/// non-trivial commodity code overwrites the row's own code.
#[verifier::rlimit(100)]
pub fn adicionar_info_de_nfes_em_cte(
    row_cte: &mut Colunas,
    config: &Config,
    info: &Informacoes,
    nfe_info: &SummaryMap,
) -> (r: bool)
    requires
        crate::informacoes::info_wf(*info),
        nfe_info.chaves_distintas(),
        forall|k: Chave| #[trigger] nfe_info@.contains_key(k) ==> k.wf(),
        old(row_cte).chave.wf(),
    ensures
        espec_adicionar_nfes(
            *old(row_cte),
            *final(row_cte),
            r,
            info.cte_nfes@,
            nfe_info@,
            config.max_info as nat,
            config.max_char as nat,
        ),
{
    let chave = row_cte.chave;
    let rel = match info.cte_nfes.obter(&chave) {
        Option::Some(s) => s,
        Option::None => {
            return false;
        },
    };
    proof {
        assert(rel.wf()) by {
            let i = choose|i: int|
                0 <= i < info.cte_nfes.entradas@.len() && #[trigger] info.cte_nfes.entradas@[i]
                    == (chave, *rel);
        }
    }
    let cands = candidatos_ordenados(rel, nfe_info);
    let ghost ks = cands@.map_values(|c: Candidato| c.chave);
    proof {
        assert forall|t: int|
            0 <= t < cands@.len() implies #[trigger] cands@[t] == cand_de(
            nfe_info@,
            cands@[t].chave,
        ) && nfe_info@.contains_key(cands@[t].chave) && cands@[t].chave.wf() by {
            assert(ks[t] == cands@[t].chave);
        }
    }
    if cands.len() == 0 {
        proof {
            if exists|c: Chave| #[trigger] info.cte_nfes@[chave].contains(c)
                && nfe_info@.contains_key(c) {
                let c = choose|c: Chave| #[trigger]
                    info.cte_nfes@[chave].contains(c) && nfe_info@.contains_key(c);
                assert(ks.contains(c));
            }
        }
        return false;
    }
    proof {
        assert(info.cte_nfes@[chave].contains(ks[0]) && nfe_info@.contains_key(ks[0]));
    }
    let soma = somar_totais(&cands, Ghost(nfe_info@));
    let resumo = montar_resumo("CTe", "NFe", &chave, &cands, soma);
    proof {
        reveal_strlit("NFe");
        reveal_strlit("CTe");
    }
    row_cte.chave_de_acesso = resumo;
    let ghost meio = *row_cte;
    let limite = if config.max_info < cands.len() {
        config.max_info
    } else {
        cands.len()
    };
    let ghost eff = recorte(ks, config.max_info as int);
    proof {
        assert(eff =~= ks.take(limite as int));
        assert(eff.skip(0) =~= eff);
        assert(campos_cte(*row_cte) == campos_cte(*old(row_cte)));
    }
    let mut i: usize = 0;
    while i < limite
        invariant
            i <= limite,
            limite <= cands@.len(),
            ks == cands@.map_values(|c: Candidato| c.chave),
            eff == ks.take(limite as int),
            nfe_info.chaves_distintas(),
            forall|t: int|
                0 <= t < cands@.len() ==> #[trigger] cands@[t] == cand_de(nfe_info@, cands@[t].chave)
                    && nfe_info@.contains_key(cands@[t].chave),
            aplicar_nfes(campos_cte(*row_cte), eff.skip(i as int), nfe_info@, config.max_char as nat)
                == aplicar_nfes(campos_cte(meio), eff, nfe_info@, config.max_char as nat),
            row_cte.chave_de_acesso == meio.chave_de_acesso,
            fora_destino_cte(meio, *row_cte),
        decreases limite - i,
    {
        let k = cands[i].chave;
        let ghost antes_inj = *row_cte;
        proof {
            assert(eff.skip(i as int)[0] == ks[i as int]);
            assert(eff.skip(i as int).skip(1) =~= eff.skip(i as int + 1));
            assert(ks[i as int] == k);
        }
        match nfe_info.obter(&k) {
            Option::Some(su) => {
                proof {
                    assert(*su == nfe_info@[k]);
                }
                match &su.metadata {
                    Option::Some(DocMetadata::Nfe(n)) => {
                        row_cte.injetar_metadata_nfe(config, n);
                        proof {
                            assert(campos_cte(*row_cte) == aplicar_meta_nfe(
                                campos_cte(antes_inj),
                                *n,
                                config.max_char as nat,
                            ));
                            assert(aplicar_nfes(
                                campos_cte(antes_inj),
                                eff.skip(i as int),
                                nfe_info@,
                                config.max_char as nat,
                            ) == aplicar_nfes(
                                campos_cte(*row_cte),
                                eff.skip(i as int + 1),
                                nfe_info@,
                                config.max_char as nat,
                            ));
                        }
                    },
                    _ => {
                        proof {
                            assert(aplicar_nfes(
                                campos_cte(antes_inj),
                                eff.skip(i as int),
                                nfe_info@,
                                config.max_char as nat,
                            ) == aplicar_nfes(
                                campos_cte(*row_cte),
                                eff.skip(i as int + 1),
                                nfe_info@,
                                config.max_char as nat,
                            ));
                        }
                    },
                }
            },
            Option::None => {
                proof {
                    assert(false);
                }
            },
        }
        i = i + 1;
    }
    proof {
        assert(eff.skip(limite as int) =~= Seq::<Chave>::empty());
        assert(espec_adicionar_nfes(
            *old(row_cte),
            *row_cte,
            true,
            info.cte_nfes@,
            nfe_info@,
            config.max_info as nat,
            config.max_char as nat,
        )) by {
            assert(candidatos_validos(ks, info.cte_nfes@[old(row_cte).chave], nfe_info@));
            assert(row_cte.chave_de_acesso@ == resumo_espec(
                "CTe"@,
                "NFe"@,
                old(row_cte).chave,
                ks,
                soma_totais(ks, nfe_info@),
            ));
            assert(campos_cte(*row_cte) == aplicar_nfes(
                campos_cte(*old(row_cte)),
                recorte(ks, config.max_info as int),
                nfe_info@,
                config.max_char as nat,
            ));
            assert(fora_destino_cte(*old(row_cte), *row_cte));
        }
    }
    true
}

/// Enriches one row of the second pass: a cancelled row is untouched, an
/// invoice row gains its manifests' information, a manifest row its
/// invoices'; rows of neither type are untouched.
pub fn enriquecer_linha(
    row: &mut Colunas,
    config: &Config,
    info: &Informacoes,
    cte_info: &SummaryMap,
    nfe_info: &SummaryMap,
) -> (r: bool)
    requires
        crate::informacoes::info_wf(*info),
        cte_info.chaves_distintas(),
        nfe_info.chaves_distintas(),
        forall|k: Chave| #[trigger] cte_info@.contains_key(k) ==> k.wf(),
        forall|k: Chave| #[trigger] nfe_info@.contains_key(k) ==> k.wf(),
        old(row).chave.wf(),
    ensures
        cancelada_espec(old(row).cancelada@) ==> !r && *final(row) == *old(row),
        !cancelada_espec(old(row).cancelada@) && old(row).chave.eh_nfe() ==> espec_adicionar_ctes(
            *old(row),
            *final(row),
            r,
            info.nfe_ctes@,
            cte_info@,
            config.max_info as nat,
            config.max_char as nat,
        ),
        !cancelada_espec(old(row).cancelada@) && old(row).chave.eh_cte() ==> espec_adicionar_nfes(
            *old(row),
            *final(row),
            r,
            info.cte_nfes@,
            nfe_info@,
            config.max_info as nat,
            config.max_char as nat,
        ),
        !cancelada_espec(old(row).cancelada@) && !old(row).chave.eh_nfe() && !old(
            row,
        ).chave.eh_cte() ==> !r && *final(row) == *old(row),
{
    if row.chave_cancelada() {
        return false;
    }
    let chave = row.chave;
    if chave.is_nfe() {
        adicionar_info_de_ctes_em_nfe(row, config, info, cte_info)
    } else if chave.is_cte() {
        adicionar_info_de_nfes_em_cte(row, config, info, nfe_info)
    } else {
        false
    }
}

} // verus!
