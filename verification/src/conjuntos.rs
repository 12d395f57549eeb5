//! Key collections: a duplicate-free set of keys and an association table
//! from keys to arbitrary values, both viewed through mathematical sets and
//! maps.

use vstd::prelude::*;

use crate::chave::Chave;

verus! {

/// A set of keys, held as a duplicate-free vector.
pub struct KeySet {
    pub itens: Vec<Chave>,
}

impl View for KeySet {
    type V = Set<Chave>;

    /// A key set denotes the set of its elements.
    open spec fn view(&self) -> Set<Chave> {
        self.itens@.to_set()
    }
}

impl KeySet {
    /// No key occurs twice.
    pub open spec fn wf(self) -> bool {
        self.itens@.no_duplicates()
    }

    /// The empty set.
    pub fn vazio() -> (r: KeySet)
        ensures
            r.wf(),
            r@ == Set::<Chave>::empty(),
            r.itens@ == Seq::<Chave>::empty(),
    {
        let r = KeySet { itens: Vec::new() };
        proof {
            assert(r@ =~= Set::<Chave>::empty());
        }
        r
    }

    /// The number of keys.
    pub fn len(&self) -> (r: usize)
        requires
            self.wf(),
        ensures
            r == self@.len(),
            r == self.itens@.len(),
    {
        proof {
            self.itens@.unique_seq_to_set();
        }
        self.itens.len()
    }

    /// Membership.
    pub fn contem(&self, k: &Chave) -> (r: bool)
        ensures
            r == self@.contains(*k),
    {
        let n = self.itens.len();
        let mut i: usize = 0;
        while i < n
            invariant
                i <= n,
                n == self.itens@.len(),
                forall|j: int| 0 <= j < i ==> self.itens@[j] != *k,
            decreases n - i,
        {
            if self.itens[i] == *k {
                proof {
                    assert(self.itens@.contains(*k));
                }
                return true;
            }
            i = i + 1;
        }
        proof {
            assert(!self.itens@.contains(*k));
        }
        false
    }

    /// Adds a key.
    pub fn inserir(&mut self, k: Chave)
        requires
            old(self).wf(),
        ensures
            final(self).wf(),
            final(self)@ == old(self)@.insert(k),
    {
        if !self.contem(&k) {
            self.itens.push(k);
            proof {
                lema_to_set_push(old(self).itens@, k);
                assert(self@ =~= old(self)@.insert(k));
            }
        } else {
            proof {
                assert(self@ =~= old(self)@.insert(k));
            }
        }
    }

    /// Adds every key of `outro`.
    pub fn estender(&mut self, outro: &KeySet)
        requires
            old(self).wf(),
        ensures
            final(self).wf(),
            final(self)@ == old(self)@ + outro@,
    {
        let n = outro.itens.len();
        let mut i: usize = 0;
        proof {
            assert(outro.itens@.take(0).to_set() =~= Set::<Chave>::empty());
            assert(self@ =~= old(self)@ + outro.itens@.take(0).to_set());
        }
        while i < n
            invariant
                i <= n,
                n == outro.itens@.len(),
                self.wf(),
                self@ == old(self)@ + outro.itens@.take(i as int).to_set(),
            decreases n - i,
        {
            self.inserir(outro.itens[i]);
            proof {
                assert(outro.itens@.take(i as int + 1).to_set() =~= outro.itens@.take(
                    i as int,
                ).to_set().insert(outro.itens@[i as int])) by {
                    assert(outro.itens@.take(i as int + 1) =~= outro.itens@.take(i as int).push(
                        outro.itens@[i as int],
                    ));
                    lema_to_set_push(outro.itens@.take(i as int), outro.itens@[i as int]);
                }
                assert(self@ =~= old(self)@ + outro.itens@.take(i as int + 1).to_set());
            }
            i = i + 1;
        }
        proof {
            assert(outro.itens@.take(n as int) =~= outro.itens@);
        }
    }

    /// An element-wise copy.
    pub fn clonar(&self) -> (r: KeySet)
        ensures
            r.itens@ == self.itens@,
            r@ == self@,
            self.wf() ==> r.wf(),
    {
        let n = self.itens.len();
        let mut itens: Vec<Chave> = Vec::new();
        let mut i: usize = 0;
        while i < n
            invariant
                i <= n,
                n == self.itens@.len(),
                itens@ == self.itens@.take(i as int),
            decreases n - i,
        {
            itens.push(self.itens[i]);
            proof {
                assert(itens@ =~= self.itens@.take(i as int + 1));
            }
            i = i + 1;
        }
        proof {
            assert(self.itens@.take(n as int) =~= self.itens@);
        }
        KeySet { itens }
    }
}

/// Pushing an element inserts it into the denoted set.
pub proof fn lema_to_set_push(s: Seq<Chave>, x: Chave)
    ensures
        s.push(x).to_set() == s.to_set().insert(x),
{
    assert forall|a: Chave| #[trigger] s.push(x).to_set().contains(a) implies s.to_set().insert(
        x,
    ).contains(a) by {
        let i = choose|i: int| 0 <= i < s.push(x).len() && s.push(x)[i] == a;
        if i < s.len() {
            assert(s[i] == a);
            assert(s.contains(a));
        }
    }
    assert forall|a: Chave| #[trigger] s.to_set().insert(x).contains(a) implies s.push(
        x,
    ).to_set().contains(a) by {
        if a == x {
            assert(s.push(x)[s.len() as int] == a);
            assert(s.push(x).contains(a));
        } else {
            let i = choose|i: int| 0 <= i < s.len() && s[i] == a;
            assert(s.push(x)[i] == a);
            assert(s.push(x).contains(a));
        }
    }
    assert(s.push(x).to_set() =~= s.to_set().insert(x));
}

/// The map denoted by an association list: later entries win (the tables
/// below keep their keys distinct, so order never matters).
pub open spec fn mapa_de<V: View>(es: Seq<(Chave, V)>) -> Map<Chave, V::V>
    decreases es.len(),
{
    if es.len() == 0 {
        Map::empty()
    } else {
        mapa_de(es.drop_last()).insert(es.last().0, es.last().1@)
    }
}

/// The domain of the denoted map is the set of entry keys.
pub proof fn lema_mapa_dominio<V: View>(es: Seq<(Chave, V)>, k: Chave)
    ensures
        mapa_de(es).contains_key(k) <==> exists|i: int|
            0 <= i < es.len() && (#[trigger] es[i]).0 == k,
    decreases es.len(),
{
    if es.len() > 0 {
        lema_mapa_dominio(es.drop_last(), k);
        if mapa_de(es).contains_key(k) {
            if k == es.last().0 {
                assert(es[es.len() - 1].0 == k);
            } else {
                assert(mapa_de(es.drop_last()).contains_key(k));
                let i = choose|i: int|
                    0 <= i < es.drop_last().len() && (#[trigger] es.drop_last()[i]).0 == k;
                assert(es[i].0 == k);
            }
        }
        if exists|i: int| 0 <= i < es.len() && (#[trigger] es[i]).0 == k {
            let i = choose|i: int| 0 <= i < es.len() && (#[trigger] es[i]).0 == k;
            if i < es.len() - 1 {
                assert(es.drop_last()[i].0 == k);
                assert(mapa_de(es.drop_last()).contains_key(k));
            }
        }
    }
}

/// With distinct keys, the denoted map reads each entry's value.
pub proof fn lema_mapa_valor<V: View>(es: Seq<(Chave, V)>, i: int)
    requires
        forall|a: int, b: int|
            0 <= a < b < es.len() ==> (#[trigger] es[a]).0 != (#[trigger] es[b]).0,
        0 <= i < es.len(),
    ensures
        mapa_de(es).contains_key(es[i].0),
        mapa_de(es)[es[i].0] == es[i].1@,
    decreases es.len(),
{
    lema_mapa_dominio(es, es[i].0);
    if i < es.len() - 1 {
        assert(es.drop_last()[i] == es[i]);
        lema_mapa_valor(es.drop_last(), i);
        assert(es.last().0 != es[i].0);
    }
}

/// Updating the value at a key updates the denoted map pointwise.
pub proof fn lema_mapa_atualiza<V: View>(es: Seq<(Chave, V)>, i: int, v: V)
    requires
        forall|a: int, b: int|
            0 <= a < b < es.len() ==> (#[trigger] es[a]).0 != (#[trigger] es[b]).0,
        0 <= i < es.len(),
    ensures
        mapa_de(es.update(i, (es[i].0, v))) == mapa_de(es).insert(es[i].0, v@),
    decreases es.len(),
{
    let es2 = es.update(i, (es[i].0, v));
    if i == es.len() - 1 {
        assert(es2.drop_last() =~= es.drop_last());
        assert(es2.last() == (es[i].0, v));
        assert(mapa_de(es2) =~= mapa_de(es).insert(es[i].0, v@));
    } else {
        assert(es2.drop_last() =~= es.drop_last().update(i, (es[i].0, v)));
        assert(es.drop_last()[i] == es[i]);
        lema_mapa_atualiza(es.drop_last(), i, v);
        assert(es2.last() == es.last());
        assert(es[i].0 != es.last().0);
        assert(mapa_de(es2) =~= mapa_de(es).insert(es[i].0, v@));
    }
}

/// Appending a fresh entry inserts into the denoted map.
pub proof fn lema_mapa_empurra<V: View>(es: Seq<(Chave, V)>, k: Chave, v: V)
    ensures
        mapa_de(es.push((k, v))) == mapa_de(es).insert(k, v@),
{
    assert(es.push((k, v)).drop_last() =~= es);
}

/// With distinct keys, the denoted map's domain has one element per entry.
pub proof fn lema_dominio_cardinalidade<V: View>(es: Seq<(Chave, V)>)
    requires
        forall|a: int, b: int|
            0 <= a < b < es.len() ==> (#[trigger] es[a]).0 != (#[trigger] es[b]).0,
    ensures
        mapa_de(es).dom().finite(),
        mapa_de(es).dom().len() == es.len(),
    decreases es.len(),
{
    if es.len() > 0 {
        lema_dominio_cardinalidade(es.drop_last());
        lema_mapa_dominio(es.drop_last(), es.last().0);
        assert(!mapa_de(es.drop_last()).contains_key(es.last().0)) by {
            if exists|i: int| 0 <= i < es.drop_last().len() && (#[trigger] es.drop_last()[i]).0
                == es.last().0 {
                let i = choose|i: int|
                    0 <= i < es.drop_last().len() && (#[trigger] es.drop_last()[i]).0
                        == es.last().0;
                assert(es[i].0 == es.last().0);
            }
        }
        assert(mapa_de(es).dom() =~= mapa_de(es.drop_last()).dom().insert(es.last().0));
    } else {
        assert(mapa_de(es).dom() =~= Set::<Chave>::empty());
    }
}

/// An association table from keys to values, with distinct keys.
pub struct TabelaChave<V> {
    pub entradas: Vec<(Chave, V)>,
}

impl<V: View> View for TabelaChave<V> {
    type V = Map<Chave, V::V>;

    /// A table denotes its map.
    open spec fn view(&self) -> Map<Chave, V::V> {
        mapa_de(self.entradas@)
    }
}

impl<V: View> TabelaChave<V> {
    /// Entry keys are pairwise distinct.
    pub open spec fn chaves_distintas(self) -> bool {
        forall|a: int, b: int|
            0 <= a < b < self.entradas@.len() ==> (#[trigger] self.entradas@[a]).0 != (
            #[trigger] self.entradas@[b]).0
    }

    /// The empty table.
    pub fn vazia() -> (r: Self)
        ensures
            r.chaves_distintas(),
            r.entradas@ == Seq::<(Chave, V)>::empty(),
            r@ == Map::<Chave, V::V>::empty(),
    {
        TabelaChave { entradas: Vec::new() }
    }

    /// The number of entries.
    pub fn len(&self) -> (r: usize)
        ensures
            r == self.entradas@.len(),
    {
        self.entradas.len()
    }

    /// The position of a key's entry.
    pub fn posicao(&self, k: &Chave) -> (r: Option<usize>)
        ensures
            match r {
                Option::Some(i) => i < self.entradas@.len() && self.entradas@[i as int].0 == *k,
                Option::None => forall|i: int|
                    0 <= i < self.entradas@.len() ==> (#[trigger] self.entradas@[i]).0 != *k,
            },
    {
        let n = self.entradas.len();
        let mut i: usize = 0;
        while i < n
            invariant
                i <= n,
                n == self.entradas@.len(),
                forall|j: int| 0 <= j < i ==> (#[trigger] self.entradas@[j]).0 != *k,
            decreases n - i,
        {
            if self.entradas[i].0 == *k {
                return Some(i);
            }
            i = i + 1;
        }
        None
    }

    /// Whether the table holds a key.
    pub fn contem(&self, k: &Chave) -> (r: bool)
        ensures
            r == self@.contains_key(*k),
    {
        proof {
            lema_mapa_dominio(self.entradas@, *k);
        }
        match self.posicao(k) {
            Option::Some(_) => true,
            Option::None => false,
        }
    }

    /// A borrow of the value at position `i`.
    pub fn valor(&self, i: usize) -> (r: &V)
        requires
            i < self.entradas@.len(),
        ensures
            *r == self.entradas@[i as int].1,
    {
        &self.entradas[i].1
    }

    /// The key at position `i`.
    pub fn chave_em(&self, i: usize) -> (r: Chave)
        requires
            i < self.entradas@.len(),
        ensures
            r == self.entradas@[i as int].0,
    {
        self.entradas[i].0
    }

    /// A borrow of the value at a key.
    pub fn obter(&self, k: &Chave) -> (r: Option<&V>)
        requires
            self.chaves_distintas(),
        ensures
            match r {
                Option::Some(v) => self@.contains_key(*k) && v@ == self@[*k] && exists|i: int|
                    0 <= i < self.entradas@.len() && #[trigger] self.entradas@[i] == (*k, *v),
                Option::None => !self@.contains_key(*k),
            },
    {
        proof {
            lema_mapa_dominio(self.entradas@, *k);
        }
        match self.posicao(k) {
            Option::Some(i) => {
                proof {
                    lema_mapa_valor(self.entradas@, i as int);
                    assert(self.entradas@[i as int] == (*k, self.entradas@[i as int].1));
                }
                Some(&self.entradas[i].1)
            },
            Option::None => None,
        }
    }

    /// Appends an entry for a key the table does not hold.
    pub fn empurrar(&mut self, k: Chave, v: V)
        requires
            old(self).chaves_distintas(),
            !old(self)@.contains_key(k),
        ensures
            final(self).chaves_distintas(),
            final(self).entradas@ == old(self).entradas@.push((k, v)),
            final(self)@ == old(self)@.insert(k, v@),
    {
        proof {
            lema_mapa_dominio(self.entradas@, k);
            lema_mapa_empurra(self.entradas@, k, v);
        }
        self.entradas.push((k, v));
        proof {
            assert forall|a: int, b: int|
                0 <= a < b < self.entradas@.len() implies (#[trigger] self.entradas@[a]).0 != (
            #[trigger] self.entradas@[b]).0 by {
                if b < self.entradas@.len() - 1 {
                } else {
                    assert(self.entradas@[a].0 != k);
                }
            }
        }
    }

    /// Replaces the value at position `i`.
    pub fn definir(&mut self, i: usize, v: V)
        requires
            old(self).chaves_distintas(),
            i < old(self).entradas@.len(),
        ensures
            final(self).chaves_distintas(),
            final(self).entradas@ == old(self).entradas@.update(
                i as int,
                (old(self).entradas@[i as int].0, v),
            ),
            final(self)@ == old(self)@.insert(old(self).entradas@[i as int].0, v@),
    {
        proof {
            lema_mapa_atualiza(self.entradas@, i as int, v);
        }
        let k = self.entradas[i].0;
        self.entradas[i] = (k, v);
        proof {
            assert(self.entradas@ =~= old(self).entradas@.update(
                i as int,
                (old(self).entradas@[i as int].0, v),
            ));
        }
    }

    /// The keys of the table, in entry order.
    pub fn chaves(&self) -> (r: Vec<Chave>)
        requires
            self.chaves_distintas(),
        ensures
            r@.len() == self.entradas@.len(),
            forall|i: int| 0 <= i < r@.len() ==> r@[i] == (#[trigger] self.entradas@[i]).0,
            r@.no_duplicates(),
            forall|k: Chave| #[trigger] self@.contains_key(k) <==> r@.contains(k),
    {
        let n = self.entradas.len();
        let mut r: Vec<Chave> = Vec::new();
        let mut i: usize = 0;
        while i < n
            invariant
                i <= n,
                n == self.entradas@.len(),
                r@.len() == i,
                forall|j: int| 0 <= j < i ==> r@[j] == (#[trigger] self.entradas@[j]).0,
            decreases n - i,
        {
            r.push(self.entradas[i].0);
            i = i + 1;
        }
        proof {
            assert forall|a: int, b: int| 0 <= a < b < r@.len() implies r@[a] != r@[b] by {
                assert(self.entradas@[a].0 != self.entradas@[b].0);
            }
            assert forall|k: Chave| #[trigger] self@.contains_key(k) <==> r@.contains(k) by {
                lema_mapa_dominio(self.entradas@, k);
                if self@.contains_key(k) {
                    let i = choose|i: int|
                        0 <= i < self.entradas@.len() && (#[trigger] self.entradas@[i]).0 == k;
                    assert(r@[i] == k);
                }
                if r@.contains(k) {
                    let i = choose|i: int| 0 <= i < r@.len() && r@[i] == k;
                    assert(self.entradas@[i].0 == k);
                }
            }
        }
        r
    }
}

} // verus!
