//! Core of a small expression language for transforming structured event
//! records: a tagged runtime value model, a compile-time type descriptor that
//! tracks fallibility, optionality and value kinds, an expression tree with
//! `execute` / `type_def` semantics, a path-addressed record accessor, and a
//! function framework with keyword-addressed argument resolution.

pub mod expression;
pub mod function;
pub mod ip;
pub mod ip_subnet;
pub mod not;
pub mod object;
pub mod only_fields;
pub mod path;
pub mod state;
pub mod typedef;
pub mod value;

pub use expression::Expr;
pub use expression::RuntimeError;
pub use function::ArgumentList;
pub use function::CompileError;
pub use function::Parameter;
pub use not::Not;
pub use object::Object;
pub use object::Record;
pub use path::Path;
pub use typedef::TypeDef;
pub use value::Kind;
pub use value::KindSet;
pub use value::Value;
pub use value::ValueError;
