//! Generates Rust bindings for C and C++ declarations.
//!
//! The declarations come as a [`ir::BindgenContext`]: every item of a header,
//! by its id. [`codegen::codegen`] gives the Rust items for those that were
//! asked for, as values of [`ast::Item`].
//!
//! What is generated for a declaration is stated by spec functions named
//! `gen_..`, from what has been generated so far, a [`result::ResultView`], to
//! what has been generated then. The contracts of the `codegen` methods say
//! that they do just that. What follows for the bindings as a whole stands in
//! [`laws`], and for the bits and bytes of what is generated in [`bits`] and
//! [`layout`].
//!
//! What each declaration becomes is stated once more, in terms of the
//! declaration and of the syntax it becomes alone: of types in [`law_types`],
//! of compound types in [`law_comp`] and their fields in [`law_members`], of
//! enums in [`law_enums`], of functions and variables in [`law_foreign`], and
//! of what is generated when in [`law_items`]. Of which declarations there are
//! bindings is told in [`law_valid`].
pub mod alias;
pub mod ast;
pub mod bitfield;
pub mod bits;
pub mod codegen;
pub mod comp;
pub mod counts;
pub mod enums;
pub mod foreign;
pub mod growth;
pub mod helpers;
pub mod ir;
pub mod law_comp;
pub mod law_enums;
pub mod law_foreign;
pub mod law_items;
pub mod law_members;
pub mod law_support;
pub mod law_types;
pub mod law_valid;
pub mod law_views;
pub mod laws;
pub mod layout;
pub mod method;
pub mod names;
pub mod ranking;
pub mod result;
pub mod support;
pub mod types;
pub mod valid_decls;
pub mod valid_types;
pub mod weights;
pub mod words;
