//! Runtime configuration and the length-budgeted field append.

use vstd::prelude::*;
use vstd::string::StrSliceExecFns;
use vstd::string::StringExecFns;

use crate::texto::aparar;
use crate::texto::aparar_chars;
use crate::texto::chars_do_texto;
use crate::texto::str_igual;
use crate::texto::texto_de_chars;

verus! {

/// Configuration surface of the enrichment: at most `max_info` counterpart
/// documents are injected per row, and no enriched field may grow to
/// `max_char` characters or beyond. The remaining fields belong to the
/// command-line layer and are carried through untouched.
#[derive(Debug, Clone)]
pub struct Config {
    /// Overwrite the original file without asking.
    pub atualizar_origem: bool,
    /// Clear the screen on start.
    pub clear: bool,
    /// Path of the primary dataset.
    pub doc_path: String,
    /// Print the configuration on start.
    pub exibir_config: bool,
    /// Maximum number of characters per enriched column.
    pub max_char: usize,
    /// Maximum number of counterpart documents injected per row.
    pub max_info: usize,
    /// Do not ask before leaving the original file untouched.
    pub no_prompt: bool,
    /// Verbose output.
    pub verbose: bool,
}

/// The grammatical article of an injection label: "a" for "NF-e", "o"
/// otherwise.
pub open spec fn artigo_de(rotulo: Seq<char>) -> char {
    if rotulo == "NF-e"@ {
        'a'
    } else {
        'o'
    }
}

/// The suffix that an append writes: ` [Info dX ROTULO: VALOR]`.
pub open spec fn sufixo_espec(valor: Seq<char>, rotulo: Seq<char>) -> Seq<char> {
    " [Info d"@ + seq![artigo_de(rotulo)] + " "@ + rotulo + ": "@ + valor + "]"@
}

/// What `Config::append` leaves in the field: unchanged when the trimmed
/// value is empty or the prospective length (current length plus the fixed
/// wrapper of 14, the label and the value) reaches `max`; otherwise the
/// field with the suffix appended.
pub open spec fn anexar_espec(
    campo: Seq<char>,
    valor: Seq<char>,
    rotulo: Seq<char>,
    max: nat,
) -> Seq<char> {
    let v = aparar(valor);
    if v.len() == 0 {
        campo
    } else if campo.len() + 14 + rotulo.len() + v.len() < max {
        campo + sufixo_espec(v, rotulo)
    } else {
        campo
    }
}

/// Field-length budget: an append whose prospective length reaches the
/// configured maximum is silently skipped, leaving the field's prior
/// content unchanged.
pub proof fn lema_orcamento_de_campo(campo: Seq<char>, valor: Seq<char>, rotulo: Seq<char>, max: nat)
    requires
        campo.len() + 14 + rotulo.len() + aparar(valor).len() >= max,
    ensures
        anexar_espec(campo, valor, rotulo, max) == campo,
{
}

impl Config {
    /// Appends `value` (trimmed, labelled) to a text field, unless the value
    /// is empty or the append would break the field-length budget.
    pub fn append(&self, field: &mut String, value: &str, label: &str)
        ensures
            final(field)@ == anexar_espec(old(field)@, value@, label@, self.max_char as nat),
    {
        let vchars = chars_do_texto(value);
        let ap = aparar_chars(&vchars);
        if ap.len() == 0 {
            return ;
        }
        let eh_nfe_rotulo = str_igual(label, "NF-e");
        let tam_campo = field.as_str().unicode_len();
        let tam_rotulo = label.unicode_len();
        let couber = (tam_campo as u128) + 14 + (tam_rotulo as u128) + (ap.len() as u128) < (
        self.max_char as u128);
        if couber {
            proof {
                reveal_strlit(" [Info d");
                reveal_strlit("a");
                reveal_strlit("o");
                reveal_strlit(" ");
                reveal_strlit(": ");
                reveal_strlit("]");
            }
            let mut sufixo = String::new();
            sufixo.append(" [Info d");
            if eh_nfe_rotulo {
                sufixo.append("a");
            } else {
                sufixo.append("o");
            }
            sufixo.append(" ");
            sufixo.append(label);
            sufixo.append(": ");
            let vtxt = texto_de_chars(&ap);
            sufixo.append(vtxt.as_str());
            sufixo.append("]");
            proof {
                assert(sufixo@ =~= sufixo_espec(aparar(value@), label@));
            }
            field.append(sufixo.as_str());
            proof {
                assert(field@ =~= anexar_espec(
                    old(field)@,
                    value@,
                    label@,
                    self.max_char as nat,
                ));
            }
        }
    }
}

impl Default for Config {
    /// All flags off, empty path, zero limits.
    fn default() -> (r: Self)
        ensures
            !r.atualizar_origem && !r.clear && !r.exibir_config && !r.no_prompt && !r.verbose,
            r.doc_path@ == Seq::<char>::empty(),
            r.max_char == 0 && r.max_info == 0,
    {
        Config {
            atualizar_origem: false,
            clear: false,
            doc_path: String::new(),
            exibir_config: false,
            max_char: 0,
            max_info: 0,
            no_prompt: false,
            verbose: false,
        }
    }
}

} // verus!
