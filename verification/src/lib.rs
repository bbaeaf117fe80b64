pub mod bigint;
pub mod modular_arithmetic;
pub mod coefficients;
pub mod ast;
pub mod algebra;
pub mod constraint;
pub mod evaluation;
pub mod text;
pub mod ast_export;
pub mod executed_template;
pub mod name_map;
pub mod signal_names;
pub mod template_report;
pub mod circuit_export;
pub mod connexion_order;
