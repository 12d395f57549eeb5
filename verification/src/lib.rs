//! Cross-links two families of fiscal documents — transport manifests (CTe)
//! and invoices (NFe) — identified by fixed-length 44-digit keys, and
//! enriches a tabular dataset with summary metadata drawn from each
//! document's counterparts.
//!
//! The crate is organised leaves first: the key type (`chave`), text and
//! monetary-value handling (`texto`, `valor`, `utils`), the dataset row and
//! its configuration (`colunas`, `config`), key collections (`conjuntos`),
//! the relationship graph with its transitive closure (`informacoes`), and
//! the aggregation and enrichment engine (`processor`).

pub mod chave;
pub mod colunas;
pub mod config;
pub mod conjuntos;
pub mod informacoes;
pub mod processor;
pub mod texto;
pub mod utils;
pub mod valor;

pub use chave::Chave;
pub use colunas::Colunas;
pub use colunas::CteMetadata;
pub use colunas::NfeMetadata;
pub use config::Config;
pub use conjuntos::KeySet;
pub use conjuntos::TabelaChave;
pub use informacoes::carregar_complementares;
pub use informacoes::carregar_cte_nfes;
pub use informacoes::scan_chaves;
pub use informacoes::Informacoes;
pub use informacoes::KeyMap;
pub use processor::adicionar_info_de_ctes_em_nfe;
pub use processor::adicionar_info_de_nfes_em_cte;
pub use processor::enriquecer_linha;
pub use processor::Candidato;
pub use processor::DocMetadata;
pub use processor::DocSummary;
pub use processor::SummaryMap;
pub use processor::SummaryPair;
pub use utils::fmt_milhares;
pub use valor::parsear_valor;
pub use valor::valor_em_texto;
