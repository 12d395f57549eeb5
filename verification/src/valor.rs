//! Monetary values.
//!
//! A value is held in tenths of a thousandth (four decimal places) in an
//! `i64`. Parsing accepts Brazilian notation (comma decimal separator, dot
//! thousands separators), plain decimal and scientific notation, with any
//! other character treated as noise and skipped; the exact decimal value is
//! rounded half away from zero at the fourth decimal place. A text whose
//! cleaned form exceeds 64 characters, or whose value cannot be represented
//! (more than 25 significant digits, or a magnitude beyond `i64`), yields
//! no value.

use vstd::prelude::*;

use crate::chave::eh_digito;
use crate::chave::lema_pow10_cresce;
use crate::chave::lema_pow10_passo;
use crate::chave::pow10;
use crate::chave::valor_digitos;
use crate::chave::char_do_digito;
use crate::texto::chars_do_texto;
use crate::texto::decimal_u128;
use crate::texto::texto_decimal;
use vstd::string::StringExecFns;

verus! {

/// A sign character.
pub open spec fn eh_sinal(c: char) -> bool {
    c == '+' || c == '-'
}

/// A character that the cleaner keeps (besides the decimal-dot rewriting).
pub open spec fn eh_mantido(c: char) -> bool {
    eh_digito(c) || c == '-' || c == '+' || c == '.' || c == 'e' || c == 'E'
}

/// Whether the text holds a decimal comma.
pub open spec fn tem_virgula(s: Seq<char>) -> bool {
    exists|i: int| 0 <= i < s.len() && s[i] == ','
}

/// The cleaned form of a value text: when a comma is present, dots
/// (thousands separators) are dropped; commas become decimal dots; digits,
/// signs, dots and exponent markers are kept; everything else is noise.
pub open spec fn limpar(s: Seq<char>, virgula: bool) -> Seq<char>
    decreases s.len(),
{
    if s.len() == 0 {
        Seq::empty()
    } else {
        let r = limpar(s.drop_last(), virgula);
        let c = s.last();
        if c == '.' && virgula {
            r
        } else if c == ',' {
            r.push('.')
        } else if eh_mantido(c) {
            r.push(c)
        } else {
            r
        }
    }
}

/// The first position at or after `i` that does not hold a digit.
pub open spec fn fim_digitos(s: Seq<char>, i: int) -> int
    decreases s.len() - i,
{
    if i < 0 || i >= s.len() {
        i
    } else if eh_digito(s[i]) {
        fim_digitos(s, i + 1)
    } else {
        i
    }
}

/// `fim_digitos` walks over digits and stops at the first non-digit.
pub proof fn lema_fim_digitos(s: Seq<char>, i: int)
    requires
        0 <= i <= s.len(),
    ensures
        i <= fim_digitos(s, i) <= s.len(),
        forall|j: int| i <= j < fim_digitos(s, i) ==> eh_digito(#[trigger] s[j]),
        fim_digitos(s, i) == s.len() || !eh_digito(s[fim_digitos(s, i)]),
    decreases s.len() - i,
{
    if i < s.len() && eh_digito(s[i]) {
        lema_fim_digitos(s, i + 1);
    }
}

/// The parsed shape of a cleaned value text: sign, mantissa digits, number
/// of fractional digits, exponent sign and exponent digits. `None` when the
/// text does not follow the decimal grammar.
pub open spec fn analisar(t: Seq<char>) -> Option<(bool, Seq<char>, int, bool, Seq<char>)> {
    let n = t.len() as int;
    let i0: int = if n > 0 && eh_sinal(t[0]) {
        1
    } else {
        0
    };
    let neg = n > 0 && t[0] == '-';
    let i1 = fim_digitos(t, i0);
    let tem_ponto = i1 < n && t[i1] == '.';
    let i2: int = if tem_ponto {
        fim_digitos(t, i1 + 1)
    } else {
        i1
    };
    let mant = if tem_ponto {
        t.subrange(i0, i1) + t.subrange(i1 + 1, i2)
    } else {
        t.subrange(i0, i1)
    };
    let frac: int = if tem_ponto {
        i2 - (i1 + 1)
    } else {
        0
    };
    if mant.len() == 0 {
        None
    } else if i2 == n {
        Some((neg, mant, frac, false, Seq::empty()))
    } else if t[i2] == 'e' || t[i2] == 'E' {
        let i3: int = if i2 + 1 < n && eh_sinal(t[i2 + 1]) {
            i2 + 2
        } else {
            i2 + 1
        };
        let exp_neg = i2 + 1 < n && t[i2 + 1] == '-';
        let i4 = fim_digitos(t, i3);
        if i4 == n && i4 > i3 {
            Some((neg, mant, frac, exp_neg, t.subrange(i3, i4)))
        } else {
            None
        }
    } else {
        None
    }
}

/// `s` without leading zero characters.
pub open spec fn sem_zeros_esq(s: Seq<char>) -> Seq<char>
    decreases s.len(),
{
    if s.len() > 0 && s[0] == '0' {
        sem_zeros_esq(s.drop_first())
    } else {
        s
    }
}

/// `a / b` rounded half away from zero (for nonnegative `a`, positive `b`).
pub open spec fn arredondar_div(a: nat, b: nat) -> nat {
    ((2 * a + b) / (2 * b)) as nat
}

/// The value `mant * 10^e` in whole units, rounded half away from zero when
/// `e` is negative.
pub open spec fn unidades_de(mant: nat, e: int) -> nat {
    if e >= 0 {
        mant * pow10(e as nat)
    } else {
        arredondar_div(mant, pow10((-e) as nat))
    }
}

/// The number of significant digits a value text may carry.
pub open spec fn max_digitos_significativos() -> nat {
    25
}

/// The length limit of the cleaned value text.
pub open spec fn max_texto_limpo() -> nat {
    64
}

/// The value of a monetary text, in tenths of a thousandth, or `None` when
/// the text is empty noise, breaks the grammar, or cannot be represented.
pub open spec fn valor_espec(s: Seq<char>) -> Option<i64> {
    let t = limpar(s, tem_virgula(s));
    if t.len() == 0 || t.len() > max_texto_limpo() {
        None
    } else {
        match analisar(t) {
            Option::None => None,
            Option::Some((neg, mant, frac, exp_neg, edig)) => {
                let sig = sem_zeros_esq(mant);
                if sig.len() > max_digitos_significativos() {
                    None
                } else {
                    let m = valor_digitos(sig);
                    let expv = valor_digitos(sem_zeros_esq(edig)) as int;
                    let e = (if exp_neg {
                        -expv
                    } else {
                        expv
                    }) + 4 - frac;
                    let u = unidades_de(m, e);
                    if u > i64::MAX {
                        None
                    } else if neg {
                        Some((-(u as int)) as i64)
                    } else {
                        Some(u as i64)
                    }
                }
            },
        }
    }
}

/// Dropping leading zeros does not change the number read.
pub proof fn lema_sem_zeros_valor(s: Seq<char>)
    ensures
        valor_digitos(sem_zeros_esq(s)) == valor_digitos(s),
        sem_zeros_esq(s).len() <= s.len(),
        sem_zeros_esq(s).len() > 0 ==> sem_zeros_esq(s)[0] != '0',
        forall|j: int|
            0 <= j < sem_zeros_esq(s).len() ==> sem_zeros_esq(s)[j] == s[j + s.len()
                - sem_zeros_esq(s).len()],
    decreases s.len(),
{
    if s.len() > 0 && s[0] == '0' {
        lema_sem_zeros_valor(s.drop_first());
        lema_valor_zero_esq(s);
    }
}

/// A leading zero contributes nothing to the value.
proof fn lema_valor_zero_esq(s: Seq<char>)
    requires
        s.len() > 0,
        s[0] == '0',
    ensures
        valor_digitos(s) == valor_digitos(s.drop_first()),
    decreases s.len(),
{
    if s.len() == 1 {
        assert(s.drop_first() =~= Seq::<char>::empty());
        assert(s.drop_last() =~= Seq::<char>::empty());
        assert(valor_digitos(Seq::<char>::empty()) == 0);
        assert(s.last() == s[0]);
        assert(crate::chave::valor_do_char(s[0]) == 0);
    } else {
        let a = s.drop_first();
        assert(s.drop_last()[0] == s[0]);
        lema_valor_zero_esq(s.drop_last());
        assert(s.drop_last().drop_first() =~= a.drop_last());
        assert(a.last() == s.last());
        assert(valor_digitos(a) == valor_digitos(a.drop_last()) * 10 + crate::chave::valor_do_char(
            a.last(),
        ));
        assert(valor_digitos(s) == valor_digitos(s.drop_last()) * 10 + crate::chave::valor_do_char(
            s.last(),
        ));
    }
}

/// A digit sequence without a leading zero is at least `10^(len-1)`.
pub proof fn lema_valor_minimo(s: Seq<char>)
    requires
        s.len() > 0,
        s[0] != '0',
        forall|j: int| 0 <= j < s.len() ==> eh_digito(#[trigger] s[j]),
    ensures
        valor_digitos(s) >= pow10((s.len() - 1) as nat),
    decreases s.len(),
{
    if s.len() == 1 {
        assert(s.drop_last() =~= Seq::<char>::empty());
        assert(crate::chave::valor_do_char(s[0]) >= 1) by {
            vstd::utf8::char_u32_cast(s[0], s[0] as u32);
            vstd::utf8::char_u32_cast('0', '0' as u32);
        }
    } else {
        let r = s.drop_last();
        assert(r[0] == s[0]);
        lema_valor_minimo(r);
        lema_pow10_passo((s.len() - 2) as nat);
        assert(valor_digitos(s) == valor_digitos(r) * 10 + crate::chave::valor_do_char(s.last()));
        assert(valor_digitos(r) * 10 >= pow10((s.len() - 2) as nat) * 10) by (nonlinear_arith)
            requires
                valor_digitos(r) >= pow10((s.len() - 2) as nat),
        ;
    }
}

/// A digit sequence is below `10^len`.
pub proof fn lema_valor_maximo(s: Seq<char>)
    requires
        forall|j: int| 0 <= j < s.len() ==> eh_digito(#[trigger] s[j]),
    ensures
        valor_digitos(s) < pow10(s.len()),
    decreases s.len(),
{
    if s.len() == 0 {
    } else {
        let r = s.drop_last();
        lema_valor_maximo(r);
        lema_pow10_passo((s.len() - 1) as nat);
        let d = crate::chave::valor_do_char(s.last());
        assert(d < 10);
        assert(valor_digitos(r) * 10 + d < pow10((s.len() - 1) as nat) * 10) by (nonlinear_arith)
            requires
                valor_digitos(r) < pow10((s.len() - 1) as nat),
                d < 10,
        ;
    }
}

/// One cleaning step, for the scanning loop.
pub proof fn lema_limpar_passo(s: Seq<char>, i: int, virgula: bool)
    requires
        0 <= i < s.len(),
    ensures
        limpar(s.take(i + 1), virgula) == if s[i] == '.' && virgula {
            limpar(s.take(i), virgula)
        } else if s[i] == ',' {
            limpar(s.take(i), virgula).push('.')
        } else if eh_mantido(s[i]) {
            limpar(s.take(i), virgula).push(s[i])
        } else {
            limpar(s.take(i), virgula)
        },
{
    let t = s.take(i + 1);
    assert(t.last() == s[i]);
    assert(t.drop_last() =~= s.take(i));
}

/// The cleaned prefix never shrinks.
pub proof fn lema_limpar_prefixo(s: Seq<char>, i: int, virgula: bool)
    requires
        0 <= i <= s.len(),
    ensures
        limpar(s.take(i), virgula).len() <= limpar(s, virgula).len(),
    decreases s.len() - i,
{
    if i == s.len() {
        assert(s.take(i) =~= s);
    } else {
        lema_limpar_passo(s, i, virgula);
        lema_limpar_prefixo(s, i + 1, virgula);
    }
}


/// `fim_digitos` is pinned down by a digit run and its boundary.
pub proof fn lema_fim_digitos_unico(s: Seq<char>, i: int, j: int)
    requires
        0 <= i <= j <= s.len(),
        forall|k: int| i <= k < j ==> eh_digito(#[trigger] s[k]),
        j == s.len() || !eh_digito(s[j]),
    ensures
        fim_digitos(s, i) == j,
    decreases j - i,
{
    if i < j {
        lema_fim_digitos_unico(s, i + 1, j);
    }
}

/// Dropping a leading run of zero characters realizes `sem_zeros_esq`.
proof fn lema_sem_zeros_sub(s: Seq<char>, k: int)
    requires
        0 <= k <= s.len(),
        forall|j: int| 0 <= j < k ==> s[j] == '0',
        k == s.len() || s[k] != '0',
    ensures
        sem_zeros_esq(s) == s.skip(k),
    decreases k,
{
    if k == 0 {
        assert(s.skip(0) =~= s);
    } else {
        lema_sem_zeros_sub(s.drop_first(), k - 1);
        assert(s.drop_first().skip(k - 1) =~= s.skip(k));
    }
}

/// Values of `pow10` needed for the bounds of the parser, written out.
pub proof fn lema_pow10_grandes()
    ensures
        pow10(6) == 1_000_000,
        pow10(25) == 10_000_000_000_000_000_000_000_000,
        pow10(26) == 100_000_000_000_000_000_000_000_000,
        pow10(38) == 100_000_000_000_000_000_000_000_000_000_000_000_000,
        pow10(39) == 1_000_000_000_000_000_000_000_000_000_000_000_000_000,
{
    reveal_with_fuel(pow10, 40);
}

/// Executable digit test.
pub fn digito_exec(c: char) -> (r: bool)
    ensures
        r == eh_digito(c),
{
    let u = c as u32;
    48 <= u && u <= 57
}

/// The first position at or after `i` in `t` that holds no digit.
fn varrer_digitos(t: &Vec<char>, i: usize) -> (r: usize)
    requires
        i <= t@.len(),
    ensures
        r as int == fim_digitos(t@, i as int),
        i <= r <= t@.len(),
{
    let n = t.len();
    let mut j = i;
    while j < n && digito_exec(t[j])
        invariant
            i <= j <= n,
            n == t@.len(),
            forall|k: int| i <= k < j ==> eh_digito(#[trigger] t@[k]),
        decreases n - j,
    {
        j = j + 1;
    }
    proof {
        lema_fim_digitos_unico(t@, i as int, j as int);
    }
    j
}

/// The copy of `t[a..b)`.
fn copiar_trecho(t: &Vec<char>, a: usize, b: usize) -> (r: Vec<char>)
    requires
        a <= b <= t@.len(),
    ensures
        r@ == t@.subrange(a as int, b as int),
{
    let mut r: Vec<char> = Vec::new();
    let mut i = a;
    while i < b
        invariant
            a <= i <= b <= t@.len(),
            r@ == t@.subrange(a as int, i as int),
        decreases b - i,
    {
        r.push(t[i]);
        proof {
            assert(r@ =~= t@.subrange(a as int, i as int + 1));
        }
        i = i + 1;
    }
    r
}

/// `v` without its leading zero characters.
fn sem_zeros_exec(v: &Vec<char>) -> (r: Vec<char>)
    ensures
        r@ == sem_zeros_esq(v@),
{
    let n = v.len();
    let mut k: usize = 0;
    while k < n && v[k] == '0'
        invariant
            k <= n,
            n == v@.len(),
            forall|j: int| 0 <= j < k ==> v@[j] == '0',
        decreases n - k,
    {
        k = k + 1;
    }
    proof {
        lema_sem_zeros_sub(v@, k as int);
    }
    copiar_trecho(v, k, n)
}

/// The number read from a short digit vector, exactly.
fn valor_exec(v: &Vec<char>) -> (r: u128)
    requires
        v@.len() <= 25,
        forall|j: int| 0 <= j < v@.len() ==> eh_digito(#[trigger] v@[j]),
    ensures
        r as nat == valor_digitos(v@),
        (r as nat) < pow10(v@.len()),
{
    let n = v.len();
    let mut acc: u128 = 0;
    let mut i: usize = 0;
    proof {
        assert(v@.take(0) =~= Seq::<char>::empty());
        lema_pow10_grandes();
    }
    while i < n
        invariant
            i <= n <= 25,
            n == v@.len(),
            forall|j: int| 0 <= j < n ==> eh_digito(#[trigger] v@[j]),
            acc as nat == valor_digitos(v@.take(i as int)),
            (acc as nat) < pow10(i as nat),
        decreases n - i,
    {
        let c = v[i];
        let d = ((c as u32) - 48) as u128;
        proof {
            crate::chave::lema_valor_push(v@.take(i as int), c);
            assert(v@.take(i as int + 1) =~= v@.take(i as int).push(c));
            lema_pow10_passo(i as nat);
            lema_pow10_cresce(i as nat + 1, 25);
            lema_pow10_grandes();
            assert((acc as nat) * 10 + (d as nat) < pow10(i as nat) * 10) by (nonlinear_arith)
                requires
                    (acc as nat) < pow10(i as nat),
                    d < 10,
            ;
        }
        acc = acc * 10 + d;
        i = i + 1;
    }
    proof {
        assert(v@.take(n as int) =~= v@);
    }
    acc
}

/// `10^e` as a machine number.
fn pot10(e: usize) -> (r: u128)
    requires
        e <= 38,
    ensures
        r as nat == pow10(e as nat),
        r >= 1,
{
    let mut r: u128 = 1;
    let mut k: usize = 0;
    proof {
        lema_pow10_grandes();
    }
    while k < e
        invariant
            k <= e <= 38,
            r as nat == pow10(k as nat),
        decreases e - k,
    {
        proof {
            lema_pow10_passo(k as nat);
            lema_pow10_cresce(k as nat + 1, 38);
            lema_pow10_grandes();
        }
        r = r * 10;
        k = k + 1;
    }
    proof {
        lema_pow10_cresce(0, e as nat);
    }
    r
}

/// `x / d == 0` for `x < d`.
proof fn lema_div_pequeno(x: int, d: int)
    requires
        0 <= x < d,
    ensures
        x / d == 0,
{
    vstd::arithmetic::div_mod::lemma_basic_div(x, d);
}

/// Zero yields zero units at every exponent.
proof fn lema_unidades_zero(e: int)
    ensures
        unidades_de(0, e) == 0,
{
    if e >= 0 {
        assert(0 * pow10(e as nat) == 0);
    } else {
        let b = pow10((-e) as nat);
        lema_pow10_cresce(0, (-e) as nat);
        lema_div_pequeno(b as int, 2 * b as int);
    }
}

/// Cleans a monetary text: `None` when the cleaned form would exceed 64
/// characters.
fn limpar_exec(texto: &str) -> (r: Option<Vec<char>>)
    ensures
        match r {
            Option::Some(t) => t@ == limpar(texto@, tem_virgula(texto@)) && t@.len() <= 64,
            Option::None => limpar(texto@, tem_virgula(texto@)).len() > 64,
        },
{
    let v = chars_do_texto(texto);
    let n0 = v.len();

    // Is there a decimal comma?
    let mut virgula = false;
    let mut i: usize = 0;
    while i < n0
        invariant
            i <= n0,
            n0 == v@.len(),
            v@ == texto@,
            virgula == tem_virgula(v@.take(i as int)),
        decreases n0 - i,
    {
        if v[i] == ',' {
            virgula = true;
        }
        proof {
            let p = v@.take(i as int + 1);
            assert(p.last() == v@[i as int]);
            if v@[i as int] == ',' {
                assert(tem_virgula(p));
            } else {
                assert(forall|j: int| 0 <= j < p.len() - 1 ==> p[j] == v@.take(i as int)[j]);
                assert(tem_virgula(p) == tem_virgula(v@.take(i as int)));
            }
        }
        i = i + 1;
    }
    proof {
        assert(v@.take(n0 as int) =~= v@);
    }

    // Clean: strip noise, rewrite the comma to a dot.
    let mut t: Vec<char> = Vec::new();
    let mut i: usize = 0;
    proof {
        assert(v@.take(0) =~= Seq::<char>::empty());
    }
    while i < n0
        invariant
            i <= n0,
            n0 == v@.len(),
            v@ == texto@,
            virgula == tem_virgula(v@),
            t@ == limpar(v@.take(i as int), virgula),
            t@.len() <= 64,
        decreases n0 - i,
    {
        let c = v[i];
        proof {
            lema_limpar_passo(v@, i as int, virgula);
        }
        let ponto_de_milhar = c == '.' && virgula;
        let manter = digito_exec(c) || c == '-' || c == '+' || c == '.' || c == 'e' || c == 'E';
        if !ponto_de_milhar && (c == ',' || manter) {
            if t.len() == 64 {
                proof {
                    lema_limpar_prefixo(v@, i as int + 1, virgula);
                }
                return None;
            }
            if c == ',' {
                t.push('.');
            } else {
                t.push(c);
            }
        }
        i = i + 1;
    }
    proof {
        assert(v@.take(n0 as int) =~= v@);
    }
    Some(t)
}

/// Parses a monetary text into tenths of a thousandth.
#[verifier::rlimit(100)]
pub fn parsear_valor(texto: &str) -> (r: Option<i64>)
    ensures
        r == valor_espec(texto@),
{
    let t = match limpar_exec(texto) {
        Option::Some(t) => t,
        Option::None => {
            return None;
        },
    };
    let n = t.len();
    if n == 0 {
        return None;
    }
    let ghost tv = t@;

    // Grammar: sign, integer digits, optional fraction, optional exponent.
    let mut i0: usize = 0;
    let mut neg = false;
    let c0 = t[0];
    if c0 == '+' || c0 == '-' {
        i0 = 1;
        neg = c0 == '-';
    }
    let i1 = varrer_digitos(&t, i0);
    let tem_ponto = i1 < n && t[i1] == '.';
    let i2 = if tem_ponto {
        varrer_digitos(&t, i1 + 1)
    } else {
        i1
    };
    let mut mant = copiar_trecho(&t, i0, i1);
    if tem_ponto {
        let parte_frac = copiar_trecho(&t, i1 + 1, i2);
        let mut j: usize = 0;
        let nf = parte_frac.len();
        while j < nf
            invariant
                j <= nf,
                nf == parte_frac@.len(),
                mant@ == tv.subrange(i0 as int, i1 as int) + parte_frac@.take(j as int),
            decreases nf - j,
        {
            mant.push(parte_frac[j]);
            proof {
                assert(mant@ =~= tv.subrange(i0 as int, i1 as int) + parte_frac@.take(
                    j as int + 1,
                ));
            }
            j = j + 1;
        }
        proof {
            assert(parte_frac@.take(nf as int) =~= parte_frac@);
        }
    } else {
        proof {
            assert(mant@ =~= tv.subrange(i0 as int, i1 as int));
        }
    }
    let frac: usize = if tem_ponto {
        i2 - (i1 + 1)
    } else {
        0
    };
    if mant.len() == 0 {
        return None;
    }
    let mut exp_neg = false;
    let mut edig: Vec<char> = Vec::new();
    if i2 < n {
        let ce = t[i2];
        if ce == 'e' || ce == 'E' {
            let mut i3 = i2 + 1;
            if i3 < n && (t[i3] == '+' || t[i3] == '-') {
                exp_neg = t[i3] == '-';
                i3 = i3 + 1;
            }
            let i4 = varrer_digitos(&t, i3);
            if i4 != n || i4 == i3 {
                return None;
            }
            edig = copiar_trecho(&t, i3, i4);
            proof {
                lema_fim_digitos(tv, i3 as int);
            }
        } else {
            return None;
        }
    }
    let ghost forma = analisar(tv);
    proof {
        assert(forma == Some((neg, mant@, frac as int, exp_neg, edig@)));
    }

    // Digits of the mantissa and of the exponent are digits indeed.
    proof {
        lema_fim_digitos(tv, i0 as int);
        if tem_ponto {
            lema_fim_digitos(tv, i1 as int + 1);
        }
        assert(forall|j: int| 0 <= j < mant@.len() ==> eh_digito(#[trigger] mant@[j]));
    }

    // Significant digits and their number.
    let sig = sem_zeros_exec(&mant);
    if sig.len() > 25 {
        return None;
    }
    proof {
        lema_sem_zeros_valor(mant@);
        assert(forall|j: int| 0 <= j < sig@.len() ==> eh_digito(#[trigger] sig@[j]));
    }
    let m = valor_exec(&sig);
    let es = sem_zeros_exec(&edig);
    proof {
        lema_sem_zeros_valor(edig@);
        assert(forall|j: int| 0 <= j < es@.len() ==> eh_digito(#[trigger] es@[j]));
    }
    let ghost expv = valor_digitos(sem_zeros_esq(edig@)) as int;
    let ghost e = (if exp_neg { -expv } else { expv }) + 4 - frac as int;

    if es.len() > 6 {
        // The exponent magnitude is at least 10^6: the value either
        // vanishes at four decimal places or overflows.
        proof {
            lema_valor_minimo(es@);
            lema_pow10_cresce(6, (es@.len() - 1) as nat);
            lema_pow10_grandes();
            assert(expv >= 1_000_000);
        }
        if m == 0 {
            proof {
                lema_unidades_zero(e);
            }
            return Some(0i64);
        }
        if exp_neg {
            proof {
                let k = (-e) as nat;
                assert(k >= 39);
                lema_pow10_cresce(39, k);
                lema_pow10_cresce(sig@.len(), 25);
                lema_pow10_grandes();
                let b = pow10(k);
                assert((m as nat) < pow10(25));
                assert(2 * (m as nat) + b < 2 * b);
                lema_div_pequeno((2 * (m as nat) + b) as int, (2 * b) as int);
            }
            return Some(0i64);
        }
        proof {
            assert(e >= 39) by {
                assert(frac as int <= 63);
            }
            lema_pow10_cresce(39, e as nat);
            lema_pow10_grandes();
            assert((m as nat) * pow10(e as nat) >= pow10(e as nat)) by (nonlinear_arith)
                requires
                    m >= 1,
            ;
        }
        return None;
    }
    proof {
        lema_valor_maximo(es@);
        lema_pow10_cresce(es@.len(), 6);
        lema_pow10_grandes();
    }
    let expv_exec = valor_exec(&es) as u64;
    let e_exec: i64 = (if exp_neg {
        -(expv_exec as i64)
    } else {
        expv_exec as i64
    }) + 4 - (frac as i64);
    proof {
        assert(e_exec as int == e);
    }

    if m == 0 {
        proof {
            lema_unidades_zero(e);
        }
        return Some(0i64);
    }
    if e_exec >= 0 {
        if e_exec > 38 {
            proof {
                lema_pow10_cresce(39, e as nat);
                lema_pow10_grandes();
                assert((m as nat) * pow10(e as nat) >= pow10(e as nat)) by (nonlinear_arith)
                    requires
                        m >= 1,
                ;
            }
            return None;
        }
        let p = pot10(e_exec as usize);
        let lim: u128 = 9_223_372_036_854_775_807;
        proof {
            assert(lim == i64::MAX);
        }
        if m > lim / p {
            proof {
                vstd::arithmetic::div_mod::lemma_fundamental_div_mod(lim as int, p as int);
                assert((m as nat) * (p as nat) > lim as nat) by (nonlinear_arith)
                    requires
                        (m as nat) >= lim as nat / (p as nat) + 1,
                        lim as nat == (lim as nat / (p as nat)) * (p as nat) + (lim as nat) % (
                        p as nat),
                        (lim as nat) % (p as nat) < (p as nat),
                        (p as nat) >= 1,
                ;
            }
            return None;
        }
        proof {
            vstd::arithmetic::div_mod::lemma_fundamental_div_mod(lim as int, p as int);
            assert((m as nat) * (p as nat) <= lim as nat) by (nonlinear_arith)
                requires
                    (m as nat) <= lim as nat / (p as nat),
                    lim as nat == (lim as nat / (p as nat)) * (p as nat) + (lim as nat) % (
                    p as nat),
                    0 <= (lim as nat) % (p as nat),
                    (p as nat) >= 1,
            ;
        }
        let prod = m * p;
        if neg {
            Some(-(prod as i64))
        } else {
            Some(prod as i64)
        }
    } else {
        let k_exec = (-e_exec) as usize;
        proof {
            assert(k_exec as int == -e);
        }
        proof {
            lema_pow10_cresce(sig@.len(), 25);
            lema_pow10_grandes();
            assert((m as nat) < pow10(25));
        }
        if k_exec > 38 {
            proof {
                lema_pow10_cresce(39, k_exec as nat);
                lema_pow10_cresce(26, 39);
                lema_pow10_grandes();
                let b = pow10(k_exec as nat);
                assert(2 * (m as nat) < 2 * pow10(25));
                assert(2 * (m as nat) + b < 2 * b);
                lema_div_pequeno((2 * (m as nat) + b) as int, (2 * b) as int);
            }
            return Some(0i64);
        }
        let b = pot10(k_exec);
        proof {
            lema_pow10_cresce(k_exec as nat, 38);
            lema_pow10_grandes();
            assert(b <= pow10(38));
        }
        let u = (2 * m + b) / (2 * b);
        if u > 9_223_372_036_854_775_807u128 {
            return None;
        }
        if neg {
            Some(-(u as i64))
        } else {
            Some(u as i64)
        }
    }
}


/// The two-decimal rendering of a value held in tenths of a thousandth:
/// whole units and two decimal places, rounded half away from zero.
pub open spec fn texto_valor(u: nat) -> Seq<char> {
    let cents = (u + 50) / 100;
    texto_decimal(cents / 100) + "."@ + seq![
        char_do_digito((cents % 100) / 10),
        char_do_digito(cents % 10),
    ]
}

/// Renders a nonnegative value (tenths of a thousandth) with two decimals.
pub fn valor_em_texto(u: u128) -> (r: String)
    ensures
        r@ == texto_valor(u as nat),
{
    let c1 = u / 100;
    let resto = u % 100;
    let cents: u128 = if resto >= 50 {
        c1 + 1
    } else {
        c1
    };
    proof {
        vstd::arithmetic::div_mod::lemma_fundamental_div_mod(u as int, 100);
        if resto < 50 {
            vstd::arithmetic::div_mod::lemma_div_multiples_vanish_fancy(
                c1 as int,
                resto as int + 50,
                100,
            );
        } else {
            vstd::arithmetic::div_mod::lemma_div_multiples_vanish_fancy(
                c1 as int + 1,
                resto as int - 50,
                100,
            );
            assert(u as int + 50 == 100 * (c1 as int + 1) + (resto as int - 50));
        }
        assert(cents as nat == ((u as nat) + 50) / 100);
    }
    let mut r = decimal_u128(cents / 100);
    proof {
        reveal_strlit(".");
    }
    r.append(".");
    let f = cents % 100;
    let d1 = (f / 10) as u8;
    let d2 = (f % 10) as u8;
    proof {
        assert(d1 as nat == ((cents as nat) % 100) / 10);
        assert(d2 as nat == (cents as nat) % 10) by {
            vstd::arithmetic::div_mod::lemma_mod_mod(cents as int, 10, 10);
        }
    }
    r.append(crate::chave::texto_do_digito(d1));
    r.append(crate::chave::texto_do_digito(d2));
    proof {
        assert(r@ =~= texto_valor(u as nat));
    }
    r
}

} // verus!
