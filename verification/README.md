# Bindings for C and C++ declarations

This crate generates Rust bindings: from the declarations of a header, as a
value of `ir::BindgenContext`, to the Rust items that stand for them, as
values of `ast::Item`. `codegen::codegen` does so.

- `src/ir.rs`: the declarations; `src/ast.rs`: the generated syntax.
- `src/types.rs`, `src/helpers.rs`: from declared types to Rust types.
- `src/foreign.rs`, `src/alias.rs`, `src/enums.rs`, `src/bitfield.rs`,
  `src/comp.rs`, `src/method.rs`: what each kind of declaration gives.
- `src/codegen.rs`, `src/result.rs`, `src/support.rs`: the traversal of the
  declarations, what it remembers, and what stands before everything else.
- `src/valid_types.rs`, `src/valid_decls.rs`, `src/ranking.rs`,
  `src/weights.rs`: whether bindings can be generated at all.
- `src/laws.rs`, `src/growth.rs`, `src/counts.rs`, `src/bits.rs`,
  `src/layout.rs`: what holds of the bindings.
- `app/`: the items as syntax trees of `syntex_syntax`.

A context can be checked with `BindgenContext::is_well_formed` and
`BindgenContext::has_countable_items` before `codegen` is called on it.
