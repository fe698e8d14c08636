//! Words for what generated syntax means, each by itself: what a type name
//! says, what number digits write, and what symbol a declaration links to.
use vstd::prelude::*;

use crate::ast::{AttrView, ForeignItemView, TyView};
use crate::ir;
use crate::ir::BindgenContext;
use crate::names;

verus! {

/// The digit that a character is, or ten if it is none.
pub open spec fn digit_of(c: char) -> nat {
    if '0' <= c && c <= '9' {
        (c as int - '0' as int) as nat
    } else {
        10
    }
}

/// The number that decimal digits write.
pub open spec fn number_of(text: Seq<char>) -> nat
    decreases text.len(),
{
    if text.len() == 0 {
        0
    } else {
        10 * number_of(text.drop_last()) + digit_of(text.last())
    }
}

/// Whether a text is a number in decimal as it is commonly written: digits
/// only, and no zero in front of others.
pub open spec fn is_decimal(text: Seq<char>) -> bool {
    &&& text.len() > 0
    &&& forall|k: int| 0 <= k < text.len() ==> digit_of(#[trigger] text[k]) < 10
    &&& text.len() > 1 ==> text[0] != '0'
}

/// Whether a text is `stem` followed by the number `n` in decimal.
pub open spec fn is_numbered(text: Seq<char>, stem: Seq<char>, n: nat) -> bool {
    &&& stem.len() < text.len()
    &&& text.take(stem.len() as int) == stem
    &&& is_decimal(text.skip(stem.len() as int))
    &&& number_of(text.skip(stem.len() as int)) == n
}

/// Whether a type is a single name without arguments.
pub open spec fn is_name(ty: TyView, name: Seq<char>) -> bool {
    ty matches TyView::Path { global, segments, args } && !global && segments.len() == 1
        && segments[0] == name && args.len() == 0
}

/// Whether a name is that of the Rust integer type of so many bytes and that
/// signedness: `i` or `u`, and the number of bits.
pub open spec fn is_integer_name(name: Seq<char>, signed: bool, bytes: nat) -> bool {
    is_numbered(
        name,
        seq![
            if signed {
                'i'
            } else {
                'u'
            },
        ],
        8 * bytes,
    )
}

/// Whether `out` is what the table of replacements makes of `name`: the
/// replacement in its first entry for the name, or the name if there is none.
pub open spec fn is_mangled(ctx: BindgenContext, name: Seq<char>, out: Seq<char>) -> bool {
    let table = ctx.mangled_names@;
    ||| out == name && forall|k: int| 0 <= k < table.len() ==> (#[trigger] table[k]).0@ != name
    ||| exists|k: int|
        0 <= k < table.len() && (#[trigger] table[k]).0@ == name && table[k].1@ == out && forall|
            j: int,
        |
            0 <= j < k ==> (#[trigger] table[j]).0@ != name
}

/// The symbol that a declaration links to: the one that an attribute gives,
/// or else its identifier.
pub open spec fn linked_symbol(declared: ForeignItemView) -> Seq<char> {
    if exists|k: int| 0 <= k < declared.attrs.len() && #[trigger] declared.attrs[k] is LinkName {
        let k = choose|k: int|
            0 <= k < declared.attrs.len() && #[trigger] declared.attrs[k] is LinkName;
        declared.attrs[k]->LinkName_0
    } else {
        declared.name
    }
}

/// Whether attributes hold the given doc comment, or none.
pub open spec fn has_comment(attrs: Seq<AttrView>, comment: Option<String>) -> bool {
    match comment {
        Some(text) => attrs.contains(AttrView::Doc(text@)),
        None => forall|k: int| 0 <= k < attrs.len() ==> !(#[trigger] attrs[k] is Doc),
    }
}

/// Whether attributes are the given doc comment, or none, and nothing else.
pub open spec fn is_only_comment(attrs: Seq<AttrView>, comment: Option<String>) -> bool {
    match comment {
        Some(text) => attrs.len() == 1 && attrs[0] == AttrView::Doc(text@),
        None => attrs.len() == 0,
    }
}

/// How many attributes a doc comment takes.
pub open spec fn comment_count(comment: Option<String>) -> nat {
    if comment is Some {
        1
    } else {
        0
    }
}

/// A number in decimal is read as that number.
pub proof fn law_decimal(n: nat)
    ensures
        is_decimal(names::decimal_digits(n)),
        number_of(names::decimal_digits(n)) == n,
    decreases n,
{
    let text = names::decimal_digits(n);
    reveal_with_fuel(number_of, 2);
    if n < 10 {
        assert(text.drop_last() =~= seq![]);
        assert(digit_of(text[0]) == n);
    } else {
        let before = names::decimal_digits(n / 10);
        law_decimal(n / 10);
        assert(text.drop_last() =~= before);
        assert(digit_of(text.last()) == n % 10);
        assert(text[0] == before[0]);
        if before.len() == 1 {
            assert(number_of(before) == digit_of(before[0])) by {
                assert(before.drop_last() =~= seq![]);
            }
            assert(digit_of(before[0]) > 0);
        }
        assert forall|k: int| 0 <= k < text.len() implies digit_of(#[trigger] text[k]) < 10 by {
            if k < before.len() {
                assert(text[k] == before[k]);
            }
        }
    }
}

/// A stem followed by digits is numbered by what the digits write.
pub proof fn lemma_numbered(stem: Seq<char>, n: nat)
    ensures
        is_numbered(stem + names::decimal_digits(n), stem, n),
{
    let digits = names::decimal_digits(n);
    law_decimal(n);
    assert((stem + digits).take(stem.len() as int) =~= stem);
    assert((stem + digits).skip(stem.len() as int) =~= digits);
}

/// A name stands for itself in generated code, unless it cannot be an
/// identifier: then its replacement does.
pub proof fn law_mangle(ctx: BindgenContext, name: Seq<char>)
    ensures
        is_mangled(ctx, name, ctx.mangle(name)),
{
    lemma_replacement(ctx, name, 0);
}

proof fn lemma_replacement(ctx: BindgenContext, name: Seq<char>, i: int)
    requires
        0 <= i <= ctx.mangled_names@.len(),
        forall|j: int| 0 <= j < i ==> (#[trigger] ctx.mangled_names@[j]).0@ != name,
    ensures
        is_mangled(ctx, name, ir::replacement(ctx.mangled_names@, name, i)),
    decreases ctx.mangled_names@.len() - i,
{
    let table = ctx.mangled_names@;
    if i < table.len() {
        if table[i].0@ != name {
            lemma_replacement(ctx, name, i + 1);
        }
    }
}

/// There is one replacement of a name at most.
pub proof fn law_mangle_unique(
    ctx: BindgenContext,
    name: Seq<char>,
    a: Seq<char>,
    b: Seq<char>,
)
    requires
        is_mangled(ctx, name, a),
        is_mangled(ctx, name, b),
    ensures
        a == b,
{
}

/// A text holds another if and only if it is made of something, the other,
/// and something.
pub proof fn law_contains_text(text: Seq<char>, part: Seq<char>)
    ensures
        names::contains_text(text, part) <==> exists|a: Seq<char>, b: Seq<char>|
            text == #[trigger] (a + part + b),
{
    if names::contains_text(text, part) {
        let i = choose|i: int| #[trigger] names::holds_at(text, part, i);
        let a = text.take(i);
        let b = text.skip(i + part.len());
        assert(text =~= a + part + b) by {
            assert(text.subrange(i, i + part.len()) == part);
            assert forall|k: int| 0 <= k < text.len() implies text[k] == (a + part + b)[k] by {
                if i <= k < i + part.len() {
                    assert(text.subrange(i, i + part.len())[k - i] == text[k]);
                }
            }
        }
    }
    if exists|a: Seq<char>, b: Seq<char>| text == #[trigger] (a + part + b) {
        let (a, b) = choose|a: Seq<char>, b: Seq<char>| text == #[trigger] (a + part + b);
        let i = a.len() as int;
        assert(text.subrange(i, i + part.len()) =~= part);
        assert(names::holds_at(text, part, i));
    }
}

} // verus!
