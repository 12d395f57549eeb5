//! The 44-digit fiscal document key (`Chave`) and its decimal machinery.
//!
//! A key is a sequence of exactly 44 ASCII digits. It is stored as two
//! 22-digit halves, each a `u128`, so that keys are plain `Copy` values with
//! structural equality. The digits at offsets 20 and 21 carry the fiscal
//! document type code: "55" marks an invoice (NFe), "57" a transport
//! manifest (CTe).

use vstd::prelude::*;
use vstd::string::StrSliceExecFns;
use vstd::string::StringExecFns;

verus! {

/// 10^e, the base of all decimal reasoning in this crate.
pub open spec fn pow10(e: nat) -> nat
    decreases e,
{
    if e == 0 {
        1
    } else {
        10 * pow10((e - 1) as nat)
    }
}

/// A decimal digit character, '0' through '9'.
pub open spec fn eh_digito(c: char) -> bool {
    48 <= c as u32 && c as u32 <= 57
}

/// The character for a single decimal digit value.
pub open spec fn char_do_digito(d: nat) -> char {
    if d == 0 {
        '0'
    } else if d == 1 {
        '1'
    } else if d == 2 {
        '2'
    } else if d == 3 {
        '3'
    } else if d == 4 {
        '4'
    } else if d == 5 {
        '5'
    } else if d == 6 {
        '6'
    } else if d == 7 {
        '7'
    } else if d == 8 {
        '8'
    } else {
        '9'
    }
}

/// The numeric value of a digit character.
pub open spec fn valor_do_char(c: char) -> nat {
    (c as u32 - 48) as nat
}

/// The digit characters of `s`, in order, everything else dropped.
pub open spec fn so_digitos(s: Seq<char>) -> Seq<char>
    decreases s.len(),
{
    if s.len() == 0 {
        Seq::empty()
    } else if eh_digito(s.last()) {
        so_digitos(s.drop_last()).push(s.last())
    } else {
        so_digitos(s.drop_last())
    }
}

/// The fixed-width decimal rendering of `n`: exactly `w` digit characters,
/// most significant first, with leading zeros.
pub open spec fn digitos(n: nat, w: nat) -> Seq<char>
    decreases w,
{
    if w == 0 {
        Seq::empty()
    } else {
        digitos(n / 10, (w - 1) as nat).push(char_do_digito(n % 10))
    }
}

/// The number denoted by a sequence of digit characters (most significant
/// first).
pub open spec fn valor_digitos(s: Seq<char>) -> nat
    decreases s.len(),
{
    if s.len() == 0 {
        0
    } else {
        valor_digitos(s.drop_last()) * 10 + valor_do_char(s.last())
    }
}

/// Powers of ten are positive and grow with the exponent.
pub proof fn lema_pow10_cresce(a: nat, b: nat)
    requires
        a <= b,
    ensures
        pow10(a) <= pow10(b),
        pow10(a) >= 1,
    decreases b,
{
    if b > 0 {
        if a == b {
            lema_pow10_cresce((a - 1) as nat, (b - 1) as nat);
        } else {
            lema_pow10_cresce(a, (b - 1) as nat);
        }
    }
}

/// One decimal step of `pow10`.
pub proof fn lema_pow10_passo(e: nat)
    ensures
        pow10(e + 1) == 10 * pow10(e),
        pow10(0) == 1,
{
}

/// 10^22 written out, so bounds on key halves become concrete.
pub proof fn lema_pow10_22()
    ensures
        pow10(22) == 10_000_000_000_000_000_000_000,
{
    reveal_with_fuel(pow10, 23);
}

/// Every character that `digitos` produces is a digit.
pub proof fn lema_digitos_sao_digitos(n: nat, w: nat)
    ensures
        digitos(n, w).len() == w,
        forall|i: int| 0 <= i < w ==> eh_digito(#[trigger] digitos(n, w)[i]),
    decreases w,
{
    if w > 0 {
        lema_digitos_sao_digitos(n / 10, (w - 1) as nat);
    }
}

/// Reading back the fixed-width rendering of `n < 10^w` yields `n`.
pub proof fn lema_valor_de_digitos(n: nat, w: nat)
    requires
        n < pow10(w),
    ensures
        valor_digitos(digitos(n, w)) == n,
    decreases w,
{
    if w == 0 {
    } else {
        let resto = digitos(n / 10, (w - 1) as nat);
        let todo = digitos(n, w);
        assert(todo.drop_last() =~= resto);
        assert(n / 10 < pow10((w - 1) as nat)) by {
            if n / 10 >= pow10((w - 1) as nat) {
                assert(n >= 10 * pow10((w - 1) as nat)) by (nonlinear_arith)
                    requires
                        n / 10 >= pow10((w - 1) as nat),
                ;
            }
        }
        lema_valor_de_digitos(n / 10, (w - 1) as nat);
        assert(valor_do_char(char_do_digito(n % 10)) == n % 10);
        assert((n / 10) * 10 + n % 10 == n) by (nonlinear_arith);
    }
}

/// A sequence of `w` digit characters is the rendering of its own value.
pub proof fn lema_digitos_de_valor(s: Seq<char>)
    requires
        forall|i: int| 0 <= i < s.len() ==> eh_digito(#[trigger] s[i]),
    ensures
        valor_digitos(s) < pow10(s.len()),
        digitos(valor_digitos(s), s.len()) == s,
    decreases s.len(),
{
    if s.len() == 0 {
        assert(digitos(0, 0) =~= s);
    } else {
        let r = s.drop_last();
        assert(forall|i: int| 0 <= i < r.len() ==> eh_digito(#[trigger] r[i]));
        lema_digitos_de_valor(r);
        let v = valor_digitos(s);
        let vr = valor_digitos(r);
        let d = valor_do_char(s.last());
        assert(eh_digito(s.last()));
        assert(d < 10);
        assert(v == vr * 10 + d);
        assert(v < pow10(s.len())) by {
            assert(vr + 1 <= pow10(r.len()));
            assert((vr + 1) * 10 <= pow10(r.len()) * 10) by (nonlinear_arith)
                requires
                    vr + 1 <= pow10(r.len()),
            ;
            assert(vr * 10 + d < (vr + 1) * 10) by (nonlinear_arith)
                requires
                    d < 10,
            ;
        }
        assert(v / 10 == vr && v % 10 == d) by (nonlinear_arith)
            requires
                v == vr * 10 + d,
                0 <= d < 10,
                vr >= 0,
        ;
        assert(char_do_digito(d) == s.last()) by {
            lema_char_digito_inverso(s.last());
        }
        assert(digitos(v, s.len()).drop_last() == digitos(vr, r.len()));
        assert(digitos(v, s.len()) =~= s);
    }
}

/// Filtering digits out of an all-digit sequence changes nothing.
pub proof fn lema_so_digitos_identidade(s: Seq<char>)
    requires
        forall|i: int| 0 <= i < s.len() ==> eh_digito(#[trigger] s[i]),
    ensures
        so_digitos(s) == s,
    decreases s.len(),
{
    if s.len() == 0 {
        assert(so_digitos(s) =~= s);
    } else {
        lema_so_digitos_identidade(s.drop_last());
        assert(so_digitos(s) =~= s);
    }
}

/// One scanning step: extending the prefix by one character either appends
/// that character to the digits seen, or leaves them unchanged.
pub proof fn lema_so_digitos_passo(s: Seq<char>, i: int)
    requires
        0 <= i < s.len(),
    ensures
        eh_digito(s[i]) ==> so_digitos(s.take(i + 1)) == so_digitos(s.take(i)).push(s[i]),
        !eh_digito(s[i]) ==> so_digitos(s.take(i + 1)) == so_digitos(s.take(i)),
{
    let t = s.take(i + 1);
    assert(t.last() == s[i]);
    assert(t.drop_last() =~= s.take(i));
}

/// The count of digits in a prefix never exceeds the count in the whole.
pub proof fn lema_so_digitos_prefixo(s: Seq<char>, i: int)
    requires
        0 <= i <= s.len(),
    ensures
        so_digitos(s.take(i)).len() <= so_digitos(s).len(),
    decreases s.len() - i,
{
    if i == s.len() {
        assert(s.take(i) =~= s);
    } else {
        lema_so_digitos_passo(s, i);
        lema_so_digitos_prefixo(s, i + 1);
    }
}

/// Appending one digit character multiplies the value by ten and adds it.
pub proof fn lema_valor_push(s: Seq<char>, c: char)
    ensures
        valor_digitos(s.push(c)) == valor_digitos(s) * 10 + valor_do_char(c),
{
    assert(s.push(c).drop_last() =~= s);
}

/// Number of digits in the key.
pub open spec fn num_digitos() -> nat {
    44
}

/// A 44-digit fiscal document key, held as two 22-digit halves.
#[derive(Clone, Copy, PartialEq, Eq, Hash, Structural, Debug)]
pub struct Chave {
    /// The first 22 digits, as a number below 10^22 (see `wf`).
    pub hi: u128,
    /// The last 22 digits, as a number below 10^22 (see `wf`).
    pub lo: u128,
}

impl View for Chave {
    type V = Seq<char>;

    /// A key denotes its 44-digit text.
    open spec fn view(&self) -> Seq<char> {
        digitos(self.hi as nat, 22) + digitos(self.lo as nat, 22)
    }
}

impl Chave {
    /// Both halves hold 22 decimal digits.
    pub open spec fn wf(self) -> bool {
        self.hi < pow10(22) && self.lo < pow10(22)
    }

    /// The key's type code (digits at offsets 20 and 21) as a number.
    pub open spec fn codigo_tipo(self) -> nat {
        self.hi as nat % 100
    }

    /// An invoice key: type code 55.
    pub open spec fn eh_nfe(self) -> bool {
        self.codigo_tipo() == 55
    }

    /// A manifest key: type code 57.
    pub open spec fn eh_cte(self) -> bool {
        self.codigo_tipo() == 57
    }

    /// A well-formed key denotes exactly 44 digit characters.
    pub proof fn lema_vista(self)
        requires
            self.wf(),
        ensures
            self@.len() == 44,
            forall|i: int| 0 <= i < 44 ==> eh_digito(#[trigger] self@[i]),
    {
        lema_digitos_sao_digitos(self.hi as nat, 22);
        lema_digitos_sao_digitos(self.lo as nat, 22);
        assert(forall|i: int|
            0 <= i < 44 ==> eh_digito(#[trigger] self@[i]) == if i < 22 {
                eh_digito(digitos(self.hi as nat, 22)[i])
            } else {
                eh_digito(digitos(self.lo as nat, 22)[i - 22])
            });
    }

    /// Two well-formed keys with the same digit text are the same key.
    pub proof fn lema_vista_injetiva(self, outra: Chave)
        requires
            self.wf(),
            outra.wf(),
            self@ == outra@,
        ensures
            self == outra,
    {
        lema_digitos_sao_digitos(self.hi as nat, 22);
        lema_digitos_sao_digitos(outra.hi as nat, 22);
        assert(digitos(self.hi as nat, 22) =~= self@.take(22));
        assert(digitos(outra.hi as nat, 22) =~= outra@.take(22));
        assert(digitos(self.lo as nat, 22) =~= self@.skip(22));
        assert(digitos(outra.lo as nat, 22) =~= outra@.skip(22));
        lema_valor_de_digitos(self.hi as nat, 22);
        lema_valor_de_digitos(outra.hi as nat, 22);
        lema_valor_de_digitos(self.lo as nat, 22);
        lema_valor_de_digitos(outra.lo as nat, 22);
    }

    /// Builds a key from free text by collecting its digit characters.
    ///
    /// Noise (quotes, brackets, spaces, any non-digit) is skipped. The
    /// result is `Some` exactly when the text holds exactly 44 digit
    /// characters; a 45th digit, or a shortfall, yields `None`.
    pub fn new(s: &str) -> (r: Option<Chave>)
        ensures
            r is Some <==> so_digitos(s@).len() == num_digitos(),
            r is Some ==> r.unwrap().wf() && r.unwrap()@ == so_digitos(s@),
    {
        let n = s.unicode_len();
        let mut i: usize = 0;
        let mut conta: usize = 0;
        let mut hi: u128 = 0;
        let mut lo: u128 = 0;
        proof {
            assert(s@.take(0) =~= Seq::<char>::empty());
            lema_pow10_22();
        }
        while i < n
            invariant
                i <= n,
                n == s@.len(),
                conta == so_digitos(s@.take(i as int)).len(),
                conta <= 44,
                conta <= 22 ==> hi as nat == valor_digitos(so_digitos(s@.take(i as int)))
                    && hi < pow10(conta as nat) && lo == 0,
                conta > 22 ==> hi as nat == valor_digitos(so_digitos(s@.take(i as int)).take(22)),
                conta > 22 ==> hi < pow10(22),
                conta > 22 ==> lo as nat == valor_digitos(so_digitos(s@.take(i as int)).skip(22)),
                conta > 22 ==> lo < pow10((conta - 22) as nat),
            decreases n - i,
        {
            let c = s.get_char(i);
            let u = c as u32;
            proof {
                lema_so_digitos_passo(s@, i as int);
                lema_pow10_22();
            }
            if 48 <= u && u <= 57 {
                if conta == 44 {
                    proof {
                        lema_so_digitos_prefixo(s@, i as int + 1);
                    }
                    return None;
                }
                let d = (u - 48) as u128;
                let ghost ds = so_digitos(s@.take(i as int));
                let ghost ds2 = so_digitos(s@.take(i as int + 1));
                proof {
                    assert(ds2 == ds.push(c));
                }
                if conta < 22 {
                    proof {
                        lema_pow10_cresce(conta as nat + 1, 22);
                        lema_valor_push(ds, c);
                        assert((hi as nat) * 10 + (d as nat) < pow10(conta as nat) * 10) by (
                        nonlinear_arith)
                            requires
                                (hi as nat) < pow10(conta as nat),
                                d < 10,
                        ;
                    }
                    hi = hi * 10 + d;
                } else {
                    proof {
                        let k = (conta - 22) as nat;
                        lema_pow10_passo(k);
                        lema_pow10_cresce(k + 1, 22);
                        lema_valor_push(ds, c);
                        if conta == 22 {
                            assert(ds2.take(22) =~= ds);
                            assert(ds2.skip(22) =~= Seq::<char>::empty().push(c));
                            lema_valor_push(Seq::<char>::empty(), c);
                            assert(valor_digitos(Seq::<char>::empty()) == 0);
                        } else {
                            assert(ds2.take(22) =~= ds.take(22));
                            assert(ds2.skip(22) =~= ds.skip(22).push(c));
                            lema_valor_push(ds.skip(22), c);
                        }
                        assert((lo as nat) * 10 + (d as nat) == valor_digitos(ds2.skip(22)));
                        assert((lo as nat) < pow10(k));
                        assert((lo as nat) * 10 + (d as nat) < pow10(k) * 10) by (nonlinear_arith)
                            requires
                                (lo as nat) < pow10(k),
                                d < 10,
                        ;
                    }
                    lo = lo * 10 + d;
                }
                conta = conta + 1;
            }
            i = i + 1;
        }
        proof {
            assert(s@.take(n as int) =~= s@);
        }
        if conta == 44 {
            let r = Chave { hi, lo };
            proof {
                let ds = so_digitos(s@);
                assert(forall|j: int| 0 <= j < ds.len() ==> eh_digito(#[trigger] ds[j])) by {
                    lema_so_digitos_todos(s@);
                }
                lema_digitos_de_valor(ds.take(22));
                lema_digitos_de_valor(ds.skip(22));
                assert(r@ =~= ds.take(22) + ds.skip(22));
                assert(ds.take(22) + ds.skip(22) =~= ds);
            }
            Some(r)
        } else {
            None
        }
    }

    /// Invoice test: the type-code digits read "55".
    pub fn is_nfe(&self) -> (r: bool)
        ensures
            r == self.eh_nfe(),
    {
        self.hi % 100 == 55
    }

    /// Manifest test: the type-code digits read "57".
    pub fn is_cte(&self) -> (r: bool)
        ensures
            r == self.eh_cte(),
    {
        self.hi % 100 == 57
    }
}

/// Every character that the digit filter keeps is a digit.
pub proof fn lema_so_digitos_todos(s: Seq<char>)
    ensures
        forall|j: int| 0 <= j < so_digitos(s).len() ==> eh_digito(#[trigger] so_digitos(s)[j]),
    decreases s.len(),
{
    if s.len() > 0 {
        let p = so_digitos(s.drop_last());
        lema_so_digitos_todos(s.drop_last());
        if eh_digito(s.last()) {
            assert forall|j: int| 0 <= j < so_digitos(s).len() implies eh_digito(
                so_digitos(s)[j],
            ) by {
                if j < p.len() {
                    assert(so_digitos(s)[j] == p[j]);
                } else {
                    assert(so_digitos(s)[j] == s.last());
                }
            }
        }
    }
}

/// A digit character is recovered from its numeric value.
pub proof fn lema_char_digito_inverso(c: char)
    requires
        eh_digito(c),
    ensures
        char_do_digito(valor_do_char(c)) == c,
{
    let u = c as u32;
    let d = char_do_digito(valor_do_char(c));
    vstd::utf8::char_u32_cast(c, u);
    vstd::utf8::char_u32_cast(d, d as u32);
    assert(d as u32 == u);
}


/// Index form of the fixed-width rendering: digit `i` of `n` (most
/// significant first) is `(n / 10^(w-1-i)) % 10`.
pub proof fn lema_digitos_indice(n: nat, w: nat)
    ensures
        digitos(n, w).len() == w,
        forall|i: int|
            0 <= i < w ==> #[trigger] digitos(n, w)[i] == char_do_digito(
                (n / pow10((w - 1 - i) as nat)) % 10,
            ),
    decreases w,
{
    lema_digitos_sao_digitos(n, w);
    if w > 0 {
        lema_digitos_indice(n / 10, (w - 1) as nat);
        assert forall|i: int| 0 <= i < w implies #[trigger] digitos(n, w)[i] == char_do_digito(
            (n / pow10((w - 1 - i) as nat)) % 10,
        ) by {
            if i < w - 1 {
                assert(digitos(n, w)[i] == digitos(n / 10, (w - 1) as nat)[i]);
                let e = (w - 2 - i) as nat;
                lema_pow10_cresce(0, e);
                vstd::arithmetic::div_mod::lemma_div_denominator(n as int, 10, pow10(e) as int);
                assert(10 * pow10(e) == pow10(e + 1));
                assert((n / 10) / pow10(e) == n / pow10(e + 1));
                assert(digitos(n / 10, (w - 1) as nat)[i] == char_do_digito(
                    ((n / 10) / pow10(e)) % 10,
                ));
                assert(e + 1 == (w - 1 - i) as nat);
                assert(digitos(n, w)[i] == char_do_digito((n / pow10((w - 1 - i) as nat)) % 10));
            } else {
                assert(digitos(n, w)[i] == char_do_digito(n % 10));
                assert(pow10((w - 1 - i) as nat) == 1);
                assert(n / pow10((w - 1 - i) as nat) == n) by {
                    vstd::arithmetic::div_mod::lemma_div_basics(n as int);
                }
            }
        }
    }
}

/// The text of one decimal digit.
pub(crate) fn texto_do_digito(d: u8) -> (r: &'static str)
    requires
        d < 10,
    ensures
        r@ =~= seq![char_do_digito(d as nat)],
{
    proof {
        reveal_strlit("0");
        reveal_strlit("1");
        reveal_strlit("2");
        reveal_strlit("3");
        reveal_strlit("4");
        reveal_strlit("5");
        reveal_strlit("6");
        reveal_strlit("7");
        reveal_strlit("8");
        reveal_strlit("9");
    }
    match d {
        0 => "0",
        1 => "1",
        2 => "2",
        3 => "3",
        4 => "4",
        5 => "5",
        6 => "6",
        7 => "7",
        8 => "8",
        _ => "9",
    }
}

/// Appends the 22-digit fixed-width rendering of `n` to `r`.
fn anexar_22_digitos(r: &mut String, n: u128)
    requires
        n < pow10(22),
    ensures
        final(r)@ == old(r)@ + digitos(n as nat, 22),
{
    let mut inversos: Vec<u8> = Vec::new();
    let mut m: u128 = n;
    let mut k: usize = 0;
    proof {
        assert(pow10(0) == 1);
    }
    while k < 22
        invariant
            k <= 22,
            n < pow10(22),
            m as nat == n as nat / pow10(k as nat),
            inversos@.len() == k,
            forall|j: int|
                0 <= j < k ==> inversos@[j] as nat == (n as nat / pow10(j as nat)) % 10,
            forall|j: int| 0 <= j < k ==> inversos@[j] < 10,
        decreases 22 - k,
    {
        inversos.push((m % 10) as u8);
        proof {
            lema_pow10_passo(k as nat);
            lema_pow10_cresce(0, k as nat);
            vstd::arithmetic::div_mod::lemma_div_denominator(
                n as int,
                pow10(k as nat) as int,
                10,
            );
            lema_pow10_cresce(k as nat, 22);
        }
        m = m / 10;
        k = k + 1;
    }
    let ghost alvo = digitos(n as nat, 22);
    proof {
        lema_digitos_indice(n as nat, 22);
        assert(old(r)@ + alvo.take(0) =~= old(r)@);
    }
    let mut j: usize = 0;
    while j < 22
        invariant
            j <= 22,
            alvo == digitos(n as nat, 22),
            alvo.len() == 22,
            inversos@.len() == 22,
            forall|t: int| 0 <= t < 22 ==> inversos@[t] < 10,
            forall|t: int| 0 <= t < 22 ==> alvo[21 - t] == char_do_digito(inversos@[t] as nat),
            r@ == old(r)@ + alvo.take(j as int),
        decreases 22 - j,
    {
        let trecho = texto_do_digito(inversos[21 - j]);
        r.append(trecho);
        proof {
            assert(old(r)@ + alvo.take(j as int + 1) =~= old(r)@ + alvo.take(j as int) + seq![
                alvo[j as int],
            ]);
        }
        j = j + 1;
    }
    proof {
        assert(alvo.take(22) =~= alvo);
    }
}

impl Chave {
    /// The textual form of the key: its 44 digits.
    pub fn to_text(&self) -> (r: String)
        requires
            self.wf(),
        ensures
            r@ == self@,
    {
        let mut r = String::new();
        anexar_22_digitos(&mut r, self.hi);
        anexar_22_digitos(&mut r, self.lo);
        proof {
            assert(r@ =~= self@);
        }
        r
    }

    /// The single-quoted textual form, used when embedding keys in delimited
    /// output so spreadsheet tools do not coerce them to numbers.
    pub fn to_text_citado(&self) -> (r: String)
        requires
            self.wf(),
        ensures
            r@ == seq!['\''] + self@ + seq!['\''],
    {
        proof {
            reveal_strlit("'");
        }
        let mut r = String::new();
        r.append("'");
        anexar_22_digitos(&mut r, self.hi);
        anexar_22_digitos(&mut r, self.lo);
        r.append("'");
        proof {
            assert(r@ =~= seq!['\''] + self@ + seq!['\'']);
        }
        r
    }

    /// Strict lexicographic order over the 44 digits, as a spec.
    pub open spec fn spec_menor(a: Chave, b: Chave) -> bool {
        a.hi < b.hi || (a.hi == b.hi && a.lo < b.lo)
    }

    /// Strict lexicographic comparison of two keys.
    pub fn menor(&self, outra: &Chave) -> (r: bool)
        ensures
            r == Self::spec_menor(*self, *outra),
    {
        self.hi < outra.hi || (self.hi == outra.hi && self.lo < outra.lo)
    }
}

impl Default for Chave {
    /// The all-zero key (type code "00": neither invoice nor manifest).
    fn default() -> (r: Self)
        ensures
            r.wf(),
            r.hi == 0 && r.lo == 0,
            !r.eh_nfe() && !r.eh_cte(),
    {
        proof {
            lema_pow10_22();
        }
        Chave { hi: 0, lo: 0 }
    }
}


/// The classification reads the two type-code digits: a key is an invoice
/// exactly when the digits at offsets 20 and 21 of its text read "55", and
/// a manifest exactly when they read "57".
pub proof fn lema_tipo_documento(k: Chave)
    requires
        k.wf(),
    ensures
        k.eh_nfe() <==> (k@[20] == '5' && k@[21] == '5'),
        k.eh_cte() <==> (k@[20] == '5' && k@[21] == '7'),
{
    let hi = k.hi as nat;
    lema_digitos_indice(hi, 22);
    lema_pow10_passo(0);
    lema_pow10_passo(1);
    assert(k@[20] == digitos(hi, 22)[20]);
    assert(k@[21] == digitos(hi, 22)[21]);
    assert(digitos(hi, 22)[20] == char_do_digito((hi / pow10(1)) % 10));
    assert(digitos(hi, 22)[21] == char_do_digito((hi / pow10(0)) % 10));
    assert(hi / pow10(0) == hi) by {
        vstd::arithmetic::div_mod::lemma_div_basics(hi as int);
    }
    assert(hi % 100 == 10 * ((hi / 10) % 10) + hi % 10) by {
        vstd::arithmetic::div_mod::lemma_mod_breakdown(hi as int, 10, 10);
    }
}

/// Round trip: the digit filter leaves a key's text unchanged, the text has
/// exactly 44 digits, and no other well-formed key shares it. Together with
/// the contracts of `Chave::new` and `Chave::to_text` this says that parsing
/// the textual form of a key yields the key itself.
pub proof fn lema_ida_e_volta(k: Chave)
    requires
        k.wf(),
    ensures
        so_digitos(k@) == k@,
        so_digitos(k@).len() == num_digitos(),
        forall|c: Chave| c.wf() && c@ == k@ ==> c == k,
{
    k.lema_vista();
    lema_so_digitos_identidade(k@);
    assert forall|c: Chave| c.wf() && c@ == k@ implies c == k by {
        c.lema_vista_injetiva(k);
    }
}

} // verus!
