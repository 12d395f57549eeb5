//! Small formatting helpers.

use vstd::prelude::*;

use crate::chave::char_do_digito;
use crate::texto::texto_de_chars;
use crate::texto::texto_decimal;

verus! {

/// `s` from position `i` on, with a dot before every group of three
/// characters counted from the right.
pub open spec fn com_milhares_de(s: Seq<char>, i: int) -> Seq<char>
    decreases s.len() - i,
{
    if i < 0 || i >= s.len() {
        Seq::empty()
    } else if i > 0 && (s.len() - i) % 3 == 0 {
        seq!['.'] + seq![s[i]] + com_milhares_de(s, i + 1)
    } else {
        seq![s[i]] + com_milhares_de(s, i + 1)
    }
}

/// `s` with dots as thousands separators.
pub open spec fn com_milhares(s: Seq<char>) -> Seq<char> {
    com_milhares_de(s, 0)
}

/// The executable digit-to-character table.
pub fn char_digito(d: u8) -> (r: char)
    requires
        d < 10,
    ensures
        r == char_do_digito(d as nat),
{
    match d {
        0 => '0',
        1 => '1',
        2 => '2',
        3 => '3',
        4 => '4',
        5 => '5',
        6 => '6',
        7 => '7',
        8 => '8',
        _ => '9',
    }
}

/// Pushes the decimal rendering of `n` onto a character vector.
pub fn empurrar_decimal(v: &mut Vec<char>, n: u128)
    ensures
        final(v)@ == old(v)@ + texto_decimal(n as nat),
    decreases n,
{
    if n < 10 {
        v.push(char_digito(n as u8));
        proof {
            assert(v@ =~= old(v)@ + texto_decimal(n as nat));
        }
    } else {
        proof {
            vstd::arithmetic::div_mod::lemma_div_decreases(n as int, 10);
        }
        empurrar_decimal(v, n / 10);
        v.push(char_digito((n % 10) as u8));
        proof {
            assert(v@ =~= old(v)@ + texto_decimal(n as nat));
        }
    }
}

/// Renders `n` in decimal with dots as thousands separators.
pub fn fmt_milhares(n: usize) -> (r: String)
    ensures
        r@ == com_milhares(texto_decimal(n as nat)),
{
    let mut ds: Vec<char> = Vec::new();
    empurrar_decimal(&mut ds, n as u128);
    proof {
        assert(Seq::<char>::empty() + texto_decimal(n as nat) =~= texto_decimal(n as nat));
    }
    let m = ds.len();
    let mut saida: Vec<char> = Vec::new();
    let mut i: usize = 0;
    proof {
        assert(com_milhares(ds@) =~= saida@ + com_milhares_de(ds@, 0));
    }
    while i < m
        invariant
            i <= m,
            m == ds@.len(),
            com_milhares(ds@) == saida@ + com_milhares_de(ds@, i as int),
        decreases m - i,
    {
        if i > 0 && (m - i) % 3 == 0 {
            saida.push('.');
        }
        saida.push(ds[i]);
        proof {
            assert(com_milhares(ds@) =~= saida@ + com_milhares_de(ds@, i as int + 1));
        }
        i = i + 1;
    }
    proof {
        assert(saida@ + com_milhares_de(ds@, m as int) =~= saida@);
    }
    texto_de_chars(&saida)
}

} // verus!
