//! Source-free document model shared by editing, storage, and rendering,
//! with the conversions to and from the syntax tree.
pub mod blanks;
pub mod convert;
pub mod error;
pub mod laws;
pub mod parsed;
pub mod printing;
pub mod types;

pub use self::error::{ModelDiagnostic, ModelError};
pub use self::types::{Blank, BlankInline, Block, Content, Document, Fold, Inline, Item, Memo, Note, Paragraph, Qa, QaFold};
