//! The row of the primary dataset (`Colunas`) and the counterpart metadata
//! snapshots, with the per-field enrichment operations.

use vstd::prelude::*;

use crate::chave::Chave;
use crate::config::anexar_espec;
use crate::config::Config;
use crate::texto::chars_do_texto;
use crate::texto::colapsar;
use crate::texto::colapsar_chars;
use crate::texto::str_igual;
use crate::texto::tem_duplo_chars;
use crate::texto::tem_espaco_duplo;
use crate::texto::texto_de_chars;
use crate::valor::parsear_valor;
use crate::valor::valor_espec;

verus! {

/// One row of the primary dataset: the document key and its text fields,
/// in the column order of the fiscal export.
pub struct Colunas {
    /// The 44-digit document key of the row.
    pub chave: Chave,
    pub contribuinte_cnpj: String,
    pub contribuinte_nome: String,
    pub entrada_ou_saida: String,
    pub participante_cnpj: String,
    pub participante_nome: String,
    pub regime_tributario: String,
    pub observacoes: String,
    pub remetente_cnpj1: String,
    pub remetente_cnpj2: String,
    pub remetente_nome: String,
    pub remetente_municipio: String,
    pub tomador_papel1: String,
    pub tomador_papel2: String,
    pub tomador_cnpj1: String,
    pub tomador_cnpj2: String,
    pub inicio_estado: String,
    pub inicio_municipio: String,
    pub termino_estado: String,
    pub termino_municipio: String,
    pub destinatario_cnpj: String,
    pub destinatario_nome: String,
    pub local_entrega: String,
    pub descricao_natureza: String,
    pub cancelada: String,
    pub origem: String,
    pub natureza_bc: String,
    pub modelo: String,
    pub num_doc: String,
    pub chave_de_acesso: String,
    pub observacoes_gerais: String,
    pub dia_emissao: String,
    pub numero_di: String,
    pub numero_item: String,
    pub cfop: String,
    pub descricao_cfop: String,
    pub descricao_mercadoria: String,
    pub ncm: String,
    pub descricao_ncm: String,
    pub aliq_cofins: String,
    pub aliq_pis: String,
    pub cst_descricao_cofins: String,
    pub cst_descricao_pis: String,
    pub valor_total: String,
    pub valor_item: String,
    pub valor_desconto: String,
    pub valor_seguro: String,
    pub valor_cofins: String,
    pub valor_pis: String,
    pub valor_ipi: String,
    pub valor_bc_iss: String,
    pub valor_iss: String,
    pub aliq_icms: String,
    pub valor_bc_icms: String,
    pub valor_icms: String,
    pub valor_icms_sub: String,
}

/// The sixteen columns a manifest (CTe) contributes to an invoice row.
#[derive(Clone)]
pub struct CteMetadata {
    pub remetente_cnpj1: String,
    pub remetente_cnpj2: String,
    pub tomador_papel1: String,
    pub tomador_papel2: String,
    pub tomador_cnpj1: String,
    pub tomador_cnpj2: String,
    pub inicio_estado: String,
    pub inicio_municipio: String,
    pub termino_estado: String,
    pub termino_municipio: String,
    pub destinatario_cnpj: String,
    pub destinatario_nome: String,
    pub local_entrega: String,
    pub descricao_natureza: String,
    pub observacoes_gerais: String,
    pub descricao_cfop: String,
}

/// The ten columns an invoice (NFe) contributes to a manifest row.
#[derive(Clone)]
pub struct NfeMetadata {
    pub contribuinte_nome: String,
    pub participante_nome: String,
    pub observacoes: String,
    pub numero_di: String,
    pub descricao_cfop: String,
    pub descricao_mercadoria: String,
    pub ncm: String,
    pub descricao_ncm: String,
    pub cst_descricao_cofins: String,
    pub cst_descricao_pis: String,
}

/// The truthy tokens of the cancellation flag.
pub open spec fn cancelada_espec(s: Seq<char>) -> bool {
    s == "Sim"@ || s == "SIM"@ || s == "sim"@ || s == "S"@ || s == "s"@ || s == "True"@
        || s == "true"@ || s == "1"@
}

/// What the sanitizer leaves in a field: collapsed whitespace when the
/// field holds a double space, the field itself otherwise.
pub open spec fn sanitizar_espec(s: Seq<char>) -> Seq<char> {
    if tem_espaco_duplo(s) {
        colapsar(s)
    } else {
        s
    }
}

/// A non-trivial commodity code: it holds at least one nonzero digit.
pub open spec fn ncm_valido_espec(s: Seq<char>) -> bool {
    exists|i: int| 0 <= i < s.len() && 49 <= #[trigger] s[i] as u32 <= 57
}

impl Colunas {
    /// The monetary value of the row's item field, in tenths of a
    /// thousandth.
    pub fn get_valor_do_item(&self) -> (r: Option<i64>)
        ensures
            r == valor_espec(self.valor_item@),
    {
        parsear_valor(self.valor_item.as_str())
    }

    /// Whether the row is flagged as cancelled.
    pub fn chave_cancelada(&self) -> (r: bool)
        ensures
            r == cancelada_espec(self.cancelada@),
    {
        proof {
            reveal_strlit("Sim");
            reveal_strlit("SIM");
            reveal_strlit("sim");
            reveal_strlit("S");
            reveal_strlit("s");
            reveal_strlit("True");
            reveal_strlit("true");
            reveal_strlit("1");
        }
        let c = self.cancelada.as_str();
        str_igual(c, "Sim") || str_igual(c, "SIM") || str_igual(c, "sim") || str_igual(c, "S")
            || str_igual(c, "s") || str_igual(c, "True") || str_igual(c, "true") || str_igual(
            c,
            "1",
        )
    }

    /// Collapses whitespace runs in a free-text field, when the field shows
    /// a double space.
    pub fn sanitizar_campo(field: &mut String)
        ensures
            final(field)@ == sanitizar_espec(old(field)@),
    {
        let v = chars_do_texto(field.as_str());
        if tem_duplo_chars(&v) {
            let c = colapsar_chars(&v);
            *field = texto_de_chars(&c);
        }
    }

    /// The manifest-side snapshot of this row: the sixteen fields a CTe
    /// hands to its invoices.
    pub fn extrair_cte_metadata(&self) -> (r: CteMetadata)
        ensures
            r.remetente_cnpj1 == self.remetente_cnpj1,
            r.remetente_cnpj2 == self.remetente_cnpj2,
            r.tomador_papel1 == self.tomador_papel1,
            r.tomador_papel2 == self.tomador_papel2,
            r.tomador_cnpj1 == self.tomador_cnpj1,
            r.tomador_cnpj2 == self.tomador_cnpj2,
            r.inicio_estado == self.inicio_estado,
            r.inicio_municipio == self.inicio_municipio,
            r.termino_estado == self.termino_estado,
            r.termino_municipio == self.termino_municipio,
            r.destinatario_cnpj == self.destinatario_cnpj,
            r.destinatario_nome == self.destinatario_nome,
            r.local_entrega == self.local_entrega,
            r.descricao_natureza == self.descricao_natureza,
            r.observacoes_gerais == self.observacoes_gerais,
            r.descricao_cfop == self.descricao_cfop,
    {
        CteMetadata {
            remetente_cnpj1: self.remetente_cnpj1.clone(),
            remetente_cnpj2: self.remetente_cnpj2.clone(),
            tomador_papel1: self.tomador_papel1.clone(),
            tomador_papel2: self.tomador_papel2.clone(),
            tomador_cnpj1: self.tomador_cnpj1.clone(),
            tomador_cnpj2: self.tomador_cnpj2.clone(),
            inicio_estado: self.inicio_estado.clone(),
            inicio_municipio: self.inicio_municipio.clone(),
            termino_estado: self.termino_estado.clone(),
            termino_municipio: self.termino_municipio.clone(),
            destinatario_cnpj: self.destinatario_cnpj.clone(),
            destinatario_nome: self.destinatario_nome.clone(),
            local_entrega: self.local_entrega.clone(),
            descricao_natureza: self.descricao_natureza.clone(),
            observacoes_gerais: self.observacoes_gerais.clone(),
            descricao_cfop: self.descricao_cfop.clone(),
        }
    }

    /// The invoice-side snapshot of this row: the ten fields an NFe hands
    /// to its manifests.
    pub fn extrair_nfe_metadata(&self) -> (r: NfeMetadata)
        ensures
            r.contribuinte_nome == self.contribuinte_nome,
            r.participante_nome == self.participante_nome,
            r.observacoes == self.observacoes,
            r.numero_di == self.numero_di,
            r.descricao_cfop == self.descricao_cfop,
            r.descricao_mercadoria == self.descricao_mercadoria,
            r.ncm == self.ncm,
            r.descricao_ncm == self.descricao_ncm,
            r.cst_descricao_cofins == self.cst_descricao_cofins,
            r.cst_descricao_pis == self.cst_descricao_pis,
    {
        NfeMetadata {
            contribuinte_nome: self.contribuinte_nome.clone(),
            participante_nome: self.participante_nome.clone(),
            observacoes: self.observacoes.clone(),
            numero_di: self.numero_di.clone(),
            descricao_cfop: self.descricao_cfop.clone(),
            descricao_mercadoria: self.descricao_mercadoria.clone(),
            ncm: self.ncm.clone(),
            descricao_ncm: self.descricao_ncm.clone(),
            cst_descricao_cofins: self.cst_descricao_cofins.clone(),
            cst_descricao_pis: self.cst_descricao_pis.clone(),
        }
    }

    /// Injects a manifest's snapshot into this invoice row: each of the
    /// sixteen destination fields receives the labelled, length-budgeted
    /// append; every other field is untouched.
    pub fn injetar_metadata_cte(&mut self, config: &Config, c: &CteMetadata)
        ensures
            final(self).contribuinte_cnpj == old(self).contribuinte_cnpj,
            final(self).contribuinte_nome == old(self).contribuinte_nome,
            final(self).entrada_ou_saida == old(self).entrada_ou_saida,
            final(self).participante_cnpj == old(self).participante_cnpj,
            final(self).participante_nome == old(self).participante_nome,
            final(self).regime_tributario == old(self).regime_tributario,
            final(self).observacoes == old(self).observacoes,
            final(self).remetente_cnpj1@ == anexar_espec(old(self).remetente_cnpj1@, c.remetente_cnpj1@, "CT-e"@, config.max_char as nat),
            final(self).remetente_cnpj2@ == anexar_espec(old(self).remetente_cnpj2@, c.remetente_cnpj2@, "CT-e"@, config.max_char as nat),
            final(self).remetente_nome == old(self).remetente_nome,
            final(self).remetente_municipio == old(self).remetente_municipio,
            final(self).tomador_papel1@ == anexar_espec(old(self).tomador_papel1@, c.tomador_papel1@, "CT-e"@, config.max_char as nat),
            final(self).tomador_papel2@ == anexar_espec(old(self).tomador_papel2@, c.tomador_papel2@, "CT-e"@, config.max_char as nat),
            final(self).tomador_cnpj1@ == anexar_espec(old(self).tomador_cnpj1@, c.tomador_cnpj1@, "CT-e"@, config.max_char as nat),
            final(self).tomador_cnpj2@ == anexar_espec(old(self).tomador_cnpj2@, c.tomador_cnpj2@, "CT-e"@, config.max_char as nat),
            final(self).inicio_estado@ == anexar_espec(old(self).inicio_estado@, c.inicio_estado@, "CT-e"@, config.max_char as nat),
            final(self).inicio_municipio@ == anexar_espec(old(self).inicio_municipio@, c.inicio_municipio@, "CT-e"@, config.max_char as nat),
            final(self).termino_estado@ == anexar_espec(old(self).termino_estado@, c.termino_estado@, "CT-e"@, config.max_char as nat),
            final(self).termino_municipio@ == anexar_espec(old(self).termino_municipio@, c.termino_municipio@, "CT-e"@, config.max_char as nat),
            final(self).destinatario_cnpj@ == anexar_espec(old(self).destinatario_cnpj@, c.destinatario_cnpj@, "CT-e"@, config.max_char as nat),
            final(self).destinatario_nome@ == anexar_espec(old(self).destinatario_nome@, c.destinatario_nome@, "CT-e"@, config.max_char as nat),
            final(self).local_entrega@ == anexar_espec(old(self).local_entrega@, c.local_entrega@, "CT-e"@, config.max_char as nat),
            final(self).descricao_natureza@ == anexar_espec(old(self).descricao_natureza@, c.descricao_natureza@, "CT-e"@, config.max_char as nat),
            final(self).cancelada == old(self).cancelada,
            final(self).origem == old(self).origem,
            final(self).natureza_bc == old(self).natureza_bc,
            final(self).modelo == old(self).modelo,
            final(self).num_doc == old(self).num_doc,
            final(self).chave_de_acesso == old(self).chave_de_acesso,
            final(self).observacoes_gerais@ == anexar_espec(old(self).observacoes_gerais@, c.observacoes_gerais@, "CT-e"@, config.max_char as nat),
            final(self).dia_emissao == old(self).dia_emissao,
            final(self).numero_di == old(self).numero_di,
            final(self).numero_item == old(self).numero_item,
            final(self).cfop == old(self).cfop,
            final(self).descricao_cfop@ == anexar_espec(old(self).descricao_cfop@, c.descricao_cfop@, "CT-e"@, config.max_char as nat),
            final(self).descricao_mercadoria == old(self).descricao_mercadoria,
            final(self).ncm == old(self).ncm,
            final(self).descricao_ncm == old(self).descricao_ncm,
            final(self).aliq_cofins == old(self).aliq_cofins,
            final(self).aliq_pis == old(self).aliq_pis,
            final(self).cst_descricao_cofins == old(self).cst_descricao_cofins,
            final(self).cst_descricao_pis == old(self).cst_descricao_pis,
            final(self).valor_total == old(self).valor_total,
            final(self).valor_item == old(self).valor_item,
            final(self).valor_desconto == old(self).valor_desconto,
            final(self).valor_seguro == old(self).valor_seguro,
            final(self).valor_cofins == old(self).valor_cofins,
            final(self).valor_pis == old(self).valor_pis,
            final(self).valor_ipi == old(self).valor_ipi,
            final(self).valor_bc_iss == old(self).valor_bc_iss,
            final(self).valor_iss == old(self).valor_iss,
            final(self).aliq_icms == old(self).aliq_icms,
            final(self).valor_bc_icms == old(self).valor_bc_icms,
            final(self).valor_icms == old(self).valor_icms,
            final(self).valor_icms_sub == old(self).valor_icms_sub,
            final(self).chave == old(self).chave,
    {
        let label = "CT-e";
        config.append(&mut self.remetente_cnpj1, c.remetente_cnpj1.as_str(), label);
        config.append(&mut self.remetente_cnpj2, c.remetente_cnpj2.as_str(), label);
        config.append(&mut self.tomador_papel1, c.tomador_papel1.as_str(), label);
        config.append(&mut self.tomador_papel2, c.tomador_papel2.as_str(), label);
        config.append(&mut self.tomador_cnpj1, c.tomador_cnpj1.as_str(), label);
        config.append(&mut self.tomador_cnpj2, c.tomador_cnpj2.as_str(), label);
        config.append(&mut self.inicio_estado, c.inicio_estado.as_str(), label);
        config.append(&mut self.inicio_municipio, c.inicio_municipio.as_str(), label);
        config.append(&mut self.termino_estado, c.termino_estado.as_str(), label);
        config.append(&mut self.termino_municipio, c.termino_municipio.as_str(), label);
        config.append(&mut self.destinatario_cnpj, c.destinatario_cnpj.as_str(), label);
        config.append(&mut self.destinatario_nome, c.destinatario_nome.as_str(), label);
        config.append(&mut self.local_entrega, c.local_entrega.as_str(), label);
        config.append(&mut self.descricao_natureza, c.descricao_natureza.as_str(), label);
        config.append(&mut self.observacoes_gerais, c.observacoes_gerais.as_str(), label);
        config.append(&mut self.descricao_cfop, c.descricao_cfop.as_str(), label);
    }

    /// Injects an invoice's snapshot into this manifest row: nine fields
    /// receive the labelled, length-budgeted append, and a non-trivial
    /// commodity code overwrites the row's own code outright.
    pub fn injetar_metadata_nfe(&mut self, config: &Config, n: &NfeMetadata)
        ensures
            final(self).contribuinte_cnpj == old(self).contribuinte_cnpj,
            final(self).contribuinte_nome@ == anexar_espec(old(self).contribuinte_nome@, n.contribuinte_nome@, "NF-e"@, config.max_char as nat),
            final(self).entrada_ou_saida == old(self).entrada_ou_saida,
            final(self).participante_cnpj == old(self).participante_cnpj,
            final(self).participante_nome@ == anexar_espec(old(self).participante_nome@, n.participante_nome@, "NF-e"@, config.max_char as nat),
            final(self).regime_tributario == old(self).regime_tributario,
            final(self).observacoes@ == anexar_espec(old(self).observacoes@, n.observacoes@, "NF-e"@, config.max_char as nat),
            final(self).remetente_cnpj1 == old(self).remetente_cnpj1,
            final(self).remetente_cnpj2 == old(self).remetente_cnpj2,
            final(self).remetente_nome == old(self).remetente_nome,
            final(self).remetente_municipio == old(self).remetente_municipio,
            final(self).tomador_papel1 == old(self).tomador_papel1,
            final(self).tomador_papel2 == old(self).tomador_papel2,
            final(self).tomador_cnpj1 == old(self).tomador_cnpj1,
            final(self).tomador_cnpj2 == old(self).tomador_cnpj2,
            final(self).inicio_estado == old(self).inicio_estado,
            final(self).inicio_municipio == old(self).inicio_municipio,
            final(self).termino_estado == old(self).termino_estado,
            final(self).termino_municipio == old(self).termino_municipio,
            final(self).destinatario_cnpj == old(self).destinatario_cnpj,
            final(self).destinatario_nome == old(self).destinatario_nome,
            final(self).local_entrega == old(self).local_entrega,
            final(self).descricao_natureza == old(self).descricao_natureza,
            final(self).cancelada == old(self).cancelada,
            final(self).origem == old(self).origem,
            final(self).natureza_bc == old(self).natureza_bc,
            final(self).modelo == old(self).modelo,
            final(self).num_doc == old(self).num_doc,
            final(self).chave_de_acesso == old(self).chave_de_acesso,
            final(self).observacoes_gerais == old(self).observacoes_gerais,
            final(self).dia_emissao == old(self).dia_emissao,
            final(self).numero_di@ == anexar_espec(old(self).numero_di@, n.numero_di@, "NF-e"@, config.max_char as nat),
            final(self).numero_item == old(self).numero_item,
            final(self).cfop == old(self).cfop,
            final(self).descricao_cfop@ == anexar_espec(old(self).descricao_cfop@, n.descricao_cfop@, "NF-e"@, config.max_char as nat),
            final(self).descricao_mercadoria@ == anexar_espec(old(self).descricao_mercadoria@, n.descricao_mercadoria@, "NF-e"@, config.max_char as nat),
            final(self).ncm == if ncm_valido_espec(n.ncm@) { n.ncm } else { old(self).ncm },
            final(self).descricao_ncm@ == anexar_espec(old(self).descricao_ncm@, n.descricao_ncm@, "NF-e"@, config.max_char as nat),
            final(self).aliq_cofins == old(self).aliq_cofins,
            final(self).aliq_pis == old(self).aliq_pis,
            final(self).cst_descricao_cofins@ == anexar_espec(old(self).cst_descricao_cofins@, n.cst_descricao_cofins@, "NF-e"@, config.max_char as nat),
            final(self).cst_descricao_pis@ == anexar_espec(old(self).cst_descricao_pis@, n.cst_descricao_pis@, "NF-e"@, config.max_char as nat),
            final(self).valor_total == old(self).valor_total,
            final(self).valor_item == old(self).valor_item,
            final(self).valor_desconto == old(self).valor_desconto,
            final(self).valor_seguro == old(self).valor_seguro,
            final(self).valor_cofins == old(self).valor_cofins,
            final(self).valor_pis == old(self).valor_pis,
            final(self).valor_ipi == old(self).valor_ipi,
            final(self).valor_bc_iss == old(self).valor_bc_iss,
            final(self).valor_iss == old(self).valor_iss,
            final(self).aliq_icms == old(self).aliq_icms,
            final(self).valor_bc_icms == old(self).valor_bc_icms,
            final(self).valor_icms == old(self).valor_icms,
            final(self).valor_icms_sub == old(self).valor_icms_sub,
            final(self).chave == old(self).chave,
    {
        let label = "NF-e";
        config.append(&mut self.contribuinte_nome, n.contribuinte_nome.as_str(), label);
        config.append(&mut self.participante_nome, n.participante_nome.as_str(), label);
        config.append(&mut self.observacoes, n.observacoes.as_str(), label);
        config.append(&mut self.numero_di, n.numero_di.as_str(), label);
        config.append(&mut self.descricao_cfop, n.descricao_cfop.as_str(), label);
        config.append(&mut self.descricao_mercadoria, n.descricao_mercadoria.as_str(), label);
        if n.ncm_valido() {
            self.ncm = n.ncm.clone();
        }
        config.append(&mut self.descricao_ncm, n.descricao_ncm.as_str(), label);
        config.append(&mut self.cst_descricao_cofins, n.cst_descricao_cofins.as_str(), label);
        config.append(&mut self.cst_descricao_pis, n.cst_descricao_pis.as_str(), label);
    }
}

impl NfeMetadata {
    /// Whether the snapshot's commodity code is non-trivial.
    pub fn ncm_valido(&self) -> (r: bool)
        ensures
            r == ncm_valido_espec(self.ncm@),
    {
        let v = chars_do_texto(self.ncm.as_str());
        let n = v.len();
        let mut i: usize = 0;
        while i < n
            invariant
                i <= n,
                n == v@.len(),
                v@ == self.ncm@,
                forall|j: int| 0 <= j < i ==> !(49 <= #[trigger] v@[j] as u32 <= 57),
            decreases n - i,
        {
            let u = v[i] as u32;
            if 49 <= u && u <= 57 {
                return true;
            }
            i = i + 1;
        }
        false
    }
}

impl Default for Colunas {
    /// The all-zero key and empty text in every column.
    fn default() -> (r: Self)
        ensures
            r.chave.hi == 0 && r.chave.lo == 0,
            r.contribuinte_cnpj@ == Seq::<char>::empty(),
            r.contribuinte_nome@ == Seq::<char>::empty(),
            r.entrada_ou_saida@ == Seq::<char>::empty(),
            r.participante_cnpj@ == Seq::<char>::empty(),
            r.participante_nome@ == Seq::<char>::empty(),
            r.regime_tributario@ == Seq::<char>::empty(),
            r.observacoes@ == Seq::<char>::empty(),
            r.remetente_cnpj1@ == Seq::<char>::empty(),
            r.remetente_cnpj2@ == Seq::<char>::empty(),
            r.remetente_nome@ == Seq::<char>::empty(),
            r.remetente_municipio@ == Seq::<char>::empty(),
            r.tomador_papel1@ == Seq::<char>::empty(),
            r.tomador_papel2@ == Seq::<char>::empty(),
            r.tomador_cnpj1@ == Seq::<char>::empty(),
            r.tomador_cnpj2@ == Seq::<char>::empty(),
            r.inicio_estado@ == Seq::<char>::empty(),
            r.inicio_municipio@ == Seq::<char>::empty(),
            r.termino_estado@ == Seq::<char>::empty(),
            r.termino_municipio@ == Seq::<char>::empty(),
            r.destinatario_cnpj@ == Seq::<char>::empty(),
            r.destinatario_nome@ == Seq::<char>::empty(),
            r.local_entrega@ == Seq::<char>::empty(),
            r.descricao_natureza@ == Seq::<char>::empty(),
            r.cancelada@ == Seq::<char>::empty(),
            r.origem@ == Seq::<char>::empty(),
            r.natureza_bc@ == Seq::<char>::empty(),
            r.modelo@ == Seq::<char>::empty(),
            r.num_doc@ == Seq::<char>::empty(),
            r.chave_de_acesso@ == Seq::<char>::empty(),
            r.observacoes_gerais@ == Seq::<char>::empty(),
            r.dia_emissao@ == Seq::<char>::empty(),
            r.numero_di@ == Seq::<char>::empty(),
            r.numero_item@ == Seq::<char>::empty(),
            r.cfop@ == Seq::<char>::empty(),
            r.descricao_cfop@ == Seq::<char>::empty(),
            r.descricao_mercadoria@ == Seq::<char>::empty(),
            r.ncm@ == Seq::<char>::empty(),
            r.descricao_ncm@ == Seq::<char>::empty(),
            r.aliq_cofins@ == Seq::<char>::empty(),
            r.aliq_pis@ == Seq::<char>::empty(),
            r.cst_descricao_cofins@ == Seq::<char>::empty(),
            r.cst_descricao_pis@ == Seq::<char>::empty(),
            r.valor_total@ == Seq::<char>::empty(),
            r.valor_item@ == Seq::<char>::empty(),
            r.valor_desconto@ == Seq::<char>::empty(),
            r.valor_seguro@ == Seq::<char>::empty(),
            r.valor_cofins@ == Seq::<char>::empty(),
            r.valor_pis@ == Seq::<char>::empty(),
            r.valor_ipi@ == Seq::<char>::empty(),
            r.valor_bc_iss@ == Seq::<char>::empty(),
            r.valor_iss@ == Seq::<char>::empty(),
            r.aliq_icms@ == Seq::<char>::empty(),
            r.valor_bc_icms@ == Seq::<char>::empty(),
            r.valor_icms@ == Seq::<char>::empty(),
            r.valor_icms_sub@ == Seq::<char>::empty(),
    {
        Colunas {
            chave: Chave::default(),
            contribuinte_cnpj: String::new(),
            contribuinte_nome: String::new(),
            entrada_ou_saida: String::new(),
            participante_cnpj: String::new(),
            participante_nome: String::new(),
            regime_tributario: String::new(),
            observacoes: String::new(),
            remetente_cnpj1: String::new(),
            remetente_cnpj2: String::new(),
            remetente_nome: String::new(),
            remetente_municipio: String::new(),
            tomador_papel1: String::new(),
            tomador_papel2: String::new(),
            tomador_cnpj1: String::new(),
            tomador_cnpj2: String::new(),
            inicio_estado: String::new(),
            inicio_municipio: String::new(),
            termino_estado: String::new(),
            termino_municipio: String::new(),
            destinatario_cnpj: String::new(),
            destinatario_nome: String::new(),
            local_entrega: String::new(),
            descricao_natureza: String::new(),
            cancelada: String::new(),
            origem: String::new(),
            natureza_bc: String::new(),
            modelo: String::new(),
            num_doc: String::new(),
            chave_de_acesso: String::new(),
            observacoes_gerais: String::new(),
            dia_emissao: String::new(),
            numero_di: String::new(),
            numero_item: String::new(),
            cfop: String::new(),
            descricao_cfop: String::new(),
            descricao_mercadoria: String::new(),
            ncm: String::new(),
            descricao_ncm: String::new(),
            aliq_cofins: String::new(),
            aliq_pis: String::new(),
            cst_descricao_cofins: String::new(),
            cst_descricao_pis: String::new(),
            valor_total: String::new(),
            valor_item: String::new(),
            valor_desconto: String::new(),
            valor_seguro: String::new(),
            valor_cofins: String::new(),
            valor_pis: String::new(),
            valor_ipi: String::new(),
            valor_bc_iss: String::new(),
            valor_iss: String::new(),
            aliq_icms: String::new(),
            valor_bc_icms: String::new(),
            valor_icms: String::new(),
            valor_icms_sub: String::new(),
        }
    }
}

impl Default for CteMetadata {
    /// Empty text in every column.
    fn default() -> (r: Self)
        ensures
            r.remetente_cnpj1@ == Seq::<char>::empty(),
            r.remetente_cnpj2@ == Seq::<char>::empty(),
            r.tomador_papel1@ == Seq::<char>::empty(),
            r.tomador_papel2@ == Seq::<char>::empty(),
            r.tomador_cnpj1@ == Seq::<char>::empty(),
            r.tomador_cnpj2@ == Seq::<char>::empty(),
            r.inicio_estado@ == Seq::<char>::empty(),
            r.inicio_municipio@ == Seq::<char>::empty(),
            r.termino_estado@ == Seq::<char>::empty(),
            r.termino_municipio@ == Seq::<char>::empty(),
            r.destinatario_cnpj@ == Seq::<char>::empty(),
            r.destinatario_nome@ == Seq::<char>::empty(),
            r.local_entrega@ == Seq::<char>::empty(),
            r.descricao_natureza@ == Seq::<char>::empty(),
            r.observacoes_gerais@ == Seq::<char>::empty(),
            r.descricao_cfop@ == Seq::<char>::empty(),
    {
        CteMetadata {
            remetente_cnpj1: String::new(),
            remetente_cnpj2: String::new(),
            tomador_papel1: String::new(),
            tomador_papel2: String::new(),
            tomador_cnpj1: String::new(),
            tomador_cnpj2: String::new(),
            inicio_estado: String::new(),
            inicio_municipio: String::new(),
            termino_estado: String::new(),
            termino_municipio: String::new(),
            destinatario_cnpj: String::new(),
            destinatario_nome: String::new(),
            local_entrega: String::new(),
            descricao_natureza: String::new(),
            observacoes_gerais: String::new(),
            descricao_cfop: String::new(),
        }
    }
}

impl Default for NfeMetadata {
    /// Empty text in every column.
    fn default() -> (r: Self)
        ensures
            r.contribuinte_nome@ == Seq::<char>::empty(),
            r.participante_nome@ == Seq::<char>::empty(),
            r.observacoes@ == Seq::<char>::empty(),
            r.numero_di@ == Seq::<char>::empty(),
            r.descricao_cfop@ == Seq::<char>::empty(),
            r.descricao_mercadoria@ == Seq::<char>::empty(),
            r.ncm@ == Seq::<char>::empty(),
            r.descricao_ncm@ == Seq::<char>::empty(),
            r.cst_descricao_cofins@ == Seq::<char>::empty(),
            r.cst_descricao_pis@ == Seq::<char>::empty(),
    {
        NfeMetadata {
            contribuinte_nome: String::new(),
            participante_nome: String::new(),
            observacoes: String::new(),
            numero_di: String::new(),
            descricao_cfop: String::new(),
            descricao_mercadoria: String::new(),
            ncm: String::new(),
            descricao_ncm: String::new(),
            cst_descricao_cofins: String::new(),
            cst_descricao_pis: String::new(),
        }
    }
}

} // verus!
