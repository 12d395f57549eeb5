//! Text utilities: char-level access to strings, trimming, whitespace
//! collapsing, and decimal rendering.
//!
//! Free text is manipulated as vectors of `char`, where every step is
//! verified; the single conversion back to `String` relies on std.

use vstd::prelude::*;
use vstd::string::StrSliceExecFns;

use crate::chave::char_do_digito;
use crate::chave::texto_do_digito;
use vstd::string::StringExecFns;

verus! {

/// Whitespace, as the sanitizer understands it: the ASCII space and control
/// whitespace characters.
pub open spec fn eh_espaco(c: char) -> bool {
    c == ' ' || c == '\t' || c == '\n' || c == '\r' || c == '\u{b}' || c == '\u{c}'
}

/// Executable whitespace test.
pub fn caractere_espaco(c: char) -> (r: bool)
    ensures
        r == eh_espaco(c),
{
    c == ' ' || c == '\t' || c == '\n' || c == '\r' || c == '\u{b}' || c == '\u{c}'
}

/// The characters of a string, as a vector.
pub fn chars_do_texto(s: &str) -> (r: Vec<char>)
    ensures
        r@ == s@,
{
    let n = s.unicode_len();
    let mut r: Vec<char> = Vec::new();
    let mut i: usize = 0;
    while i < n
        invariant
            i <= n,
            n == s@.len(),
            r@ == s@.take(i as int),
        decreases n - i,
    {
        r.push(s.get_char(i));
        proof {
            assert(r@ =~= s@.take(i as int + 1));
        }
        i = i + 1;
    }
    proof {
        assert(s@.take(n as int) =~= s@);
    }
    r
}

/// Turns a vector of characters back into a `String`.
///
/// Relies on std's `FromIterator<char> for String`: collecting characters
/// concatenates exactly those characters, in order.
#[verifier::external_body]
pub fn texto_de_chars(v: &Vec<char>) -> (r: String)
    ensures
        r@ == v@,
{
    v.iter().collect()
}

/// Character-wise string equality.
pub fn str_igual(a: &str, b: &str) -> (r: bool)
    ensures
        r == (a@ == b@),
{
    let na = a.unicode_len();
    let nb = b.unicode_len();
    if na != nb {
        proof {
            assert(a@ != b@);
        }
        return false;
    }
    let mut i: usize = 0;
    while i < na
        invariant
            i <= na,
            na == a@.len(),
            na == b@.len(),
            forall|j: int| 0 <= j < i ==> a@[j] == b@[j],
        decreases na - i,
    {
        if a.get_char(i) != b.get_char(i) {
            proof {
                assert(a@[i as int] != b@[i as int]);
            }
            return false;
        }
        i = i + 1;
    }
    proof {
        assert(a@ =~= b@);
    }
    true
}

/// `s` without leading whitespace.
pub open spec fn aparar_esq(s: Seq<char>) -> Seq<char>
    decreases s.len(),
{
    if s.len() > 0 && eh_espaco(s.first()) {
        aparar_esq(s.drop_first())
    } else {
        s
    }
}

/// `s` without trailing whitespace.
pub open spec fn aparar_dir(s: Seq<char>) -> Seq<char>
    decreases s.len(),
{
    if s.len() > 0 && eh_espaco(s.last()) {
        aparar_dir(s.drop_last())
    } else {
        s
    }
}

/// `s` without leading or trailing whitespace.
pub open spec fn aparar(s: Seq<char>) -> Seq<char> {
    aparar_dir(aparar_esq(s))
}

/// Skipping a fully-whitespace prefix realizes `aparar_esq`.
proof fn lema_aparar_esq(s: Seq<char>, a: int)
    requires
        0 <= a <= s.len(),
        forall|j: int| 0 <= j < a ==> eh_espaco(s[j]),
        a == s.len() || !eh_espaco(s[a]),
    ensures
        aparar_esq(s) == s.skip(a),
    decreases a,
{
    if a == 0 {
        assert(s.skip(0) =~= s);
    } else {
        assert(eh_espaco(s.first()));
        lema_aparar_esq(s.drop_first(), a - 1);
        assert(s.drop_first().skip(a - 1) =~= s.skip(a));
    }
}

/// Dropping a fully-whitespace suffix realizes `aparar_dir`.
proof fn lema_aparar_dir(s: Seq<char>, b: int)
    requires
        0 <= b <= s.len(),
        forall|j: int| b <= j < s.len() ==> eh_espaco(s[j]),
        b == 0 || !eh_espaco(s[b - 1]),
    ensures
        aparar_dir(s) == s.take(b),
    decreases s.len(),
{
    if b == s.len() {
        assert(s.take(b) =~= s);
    } else {
        assert(eh_espaco(s.last()));
        lema_aparar_dir(s.drop_last(), b);
        assert(s.drop_last().take(b) =~= s.take(b));
    }
}

/// The trimmed form of a character vector.
pub fn aparar_chars(v: &Vec<char>) -> (r: Vec<char>)
    ensures
        r@ == aparar(v@),
{
    let n = v.len();
    let mut a: usize = 0;
    while a < n && caractere_espaco(v[a])
        invariant
            a <= n,
            n == v@.len(),
            forall|j: int| 0 <= j < a ==> eh_espaco(v@[j]),
        decreases n - a,
    {
        a = a + 1;
    }
    proof {
        lema_aparar_esq(v@, a as int);
    }
    let ghost meio = v@.skip(a as int);
    let mut b: usize = n;
    while b > a && caractere_espaco(v[b - 1])
        invariant
            a <= b <= n,
            n == v@.len(),
            meio == v@.skip(a as int),
            forall|j: int| b <= j < n ==> eh_espaco(v@[j]),
        decreases b,
    {
        b = b - 1;
    }
    proof {
        lema_aparar_dir(meio, b - a as int);
        assert(forall|j: int|
            b - a <= j < meio.len() ==> eh_espaco(#[trigger] meio[j]) == eh_espaco(
                v@[j + a as int],
            ));
        assert(aparar(v@) == meio.take(b - a as int));
    }
    let mut r: Vec<char> = Vec::new();
    let mut i: usize = a;
    while i < b
        invariant
            a <= i <= b <= n,
            n == v@.len(),
            r@ == v@.subrange(a as int, i as int),
        decreases b - i,
    {
        r.push(v[i]);
        proof {
            assert(r@ =~= v@.subrange(a as int, i as int + 1));
        }
        i = i + 1;
    }
    proof {
        assert(meio.take(b - a as int) =~= v@.subrange(a as int, b as int));
    }
    r
}

/// Collapsing state machine over `s` starting at `i`: a run of two or more
/// whitespace characters becomes one space, a lone whitespace character is
/// kept as it is, everything else is copied. `em_serie` says whether a
/// whitespace run is already being swallowed.
pub open spec fn colapsar_de(s: Seq<char>, i: int, em_serie: bool) -> Seq<char>
    decreases s.len() - i,
{
    if i < 0 || i >= s.len() {
        Seq::empty()
    } else if eh_espaco(s[i]) {
        if em_serie {
            colapsar_de(s, i + 1, true)
        } else if i + 1 < s.len() && eh_espaco(s[i + 1]) {
            seq![' '] + colapsar_de(s, i + 1, true)
        } else {
            seq![s[i]] + colapsar_de(s, i + 1, false)
        }
    } else {
        seq![s[i]] + colapsar_de(s, i + 1, false)
    }
}

/// The whitespace-collapsed form of `s`.
pub open spec fn colapsar(s: Seq<char>) -> Seq<char> {
    colapsar_de(s, 0, false)
}

/// Whether `s` holds two consecutive spaces (the sanitizer's trigger).
pub open spec fn tem_espaco_duplo(s: Seq<char>) -> bool {
    exists|i: int| 0 <= i && i + 1 < s.len() && #[trigger] s[i] == ' ' && s[i + 1] == ' '
}

/// The whitespace-collapsed form of a character vector.
pub fn colapsar_chars(v: &Vec<char>) -> (r: Vec<char>)
    ensures
        r@ == colapsar(v@),
{
    let n = v.len();
    let mut r: Vec<char> = Vec::new();
    let mut i: usize = 0;
    let mut em_serie: bool = false;
    proof {
        assert(colapsar(v@) == r@ + colapsar_de(v@, 0, false));
    }
    while i < n
        invariant
            i <= n,
            n == v@.len(),
            colapsar(v@) == r@ + colapsar_de(v@, i as int, em_serie),
        decreases n - i,
    {
        let c = v[i];
        if caractere_espaco(c) {
            if em_serie {
                // already swallowed into the single emitted space
            } else if i + 1 < n && caractere_espaco(v[i + 1]) {
                r.push(' ');
                em_serie = true;
            } else {
                r.push(c);
            }
        } else {
            r.push(c);
            em_serie = false;
        }
        proof {
            assert(colapsar(v@) == r@ + colapsar_de(v@, i as int + 1, em_serie));
        }
        i = i + 1;
    }
    proof {
        assert(colapsar_de(v@, n as int, em_serie) =~= Seq::<char>::empty());
        assert(r@ + Seq::<char>::empty() =~= r@);
    }
    r
}

/// Whether the vector holds two consecutive spaces.
pub fn tem_duplo_chars(v: &Vec<char>) -> (r: bool)
    ensures
        r == tem_espaco_duplo(v@),
{
    let n = v.len();
    if n < 2 {
        return false;
    }
    let mut i: usize = 0;
    while i + 1 < n
        invariant
            i + 1 <= n,
            n == v@.len(),
            forall|j: int| 0 <= j && j + 1 < i + 1 ==> !(#[trigger] v@[j] == ' ' && v@[j + 1] == ' '),
        decreases n - i,
    {
        if v[i] == ' ' && v[i + 1] == ' ' {
            return true;
        }
        i = i + 1;
    }
    false
}

/// The decimal rendering of `n`, without leading zeros.
pub open spec fn texto_decimal(n: nat) -> Seq<char>
    decreases n,
{
    if n < 10 {
        seq![char_do_digito(n)]
    } else {
        texto_decimal(n / 10).push(char_do_digito(n % 10))
    }
}

/// Appends the decimal rendering of `n` to `r`.
pub fn anexar_decimal(r: &mut String, n: u128)
    ensures
        final(r)@ == old(r)@ + texto_decimal(n as nat),
    decreases n,
{
    if n < 10 {
        let trecho = texto_do_digito(n as u8);
        r.append(trecho);
        proof {
            assert(old(r)@ + texto_decimal(n as nat) =~= r@);
        }
    } else {
        proof {
            vstd::arithmetic::div_mod::lemma_div_decreases(n as int, 10);
        }
        anexar_decimal(r, n / 10);
        let trecho = texto_do_digito((n % 10) as u8);
        r.append(trecho);
        proof {
            assert(old(r)@ + texto_decimal(n as nat) =~= r@);
        }
    }
}

/// The decimal rendering of `n`, as a `String`.
pub fn decimal_u128(n: u128) -> (r: String)
    ensures
        r@ == texto_decimal(n as nat),
{
    let mut r = String::new();
    anexar_decimal(&mut r, n);
    proof {
        assert(Seq::<char>::empty() + texto_decimal(n as nat) =~= texto_decimal(n as nat));
    }
    r
}

} // verus!
