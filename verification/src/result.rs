//! What has been generated so far.
use std::collections::HashSet;

use vstd::hash_map::StringHashMap;
use vstd::hash_set::StringHashSet;
use vstd::prelude::*;

use crate::ast;
use crate::ast::ItemView;
use crate::ir::{BindgenContext, ItemId};

verus! {

/// The items generated so far, and what has to be remembered of them.
pub struct CodegenResult {
    pub items: Vec<ast::Item>,
    /// A counter that gives ids to what nothing else refers to.
    pub codegen_id: usize,
    /// Whether a union has been generated.
    pub saw_union: bool,
    /// The declarations that have been generated.
    pub items_seen: HashSet<usize>,
    /// The symbols of the functions that have been generated: C and C++ allow
    /// a function to be declared more than once.
    pub functions_seen: StringHashSet,
    /// The names of the variables that have been generated.
    pub vars_seen: StringHashSet,
    /// How many functions have been generated under each name.
    pub overload_counters: StringHashMap<u32>,
    /// Whether a complex number type has been generated.
    pub needs_complex: bool,
}

/// The mathematical counterpart of [`CodegenResult`].
#[verifier::ext_equal]
pub struct ResultView {
    pub items: Seq<ItemView>,
    pub codegen_id: nat,
    pub saw_union: bool,
    pub items_seen: Set<usize>,
    pub functions_seen: Set<Seq<char>>,
    pub vars_seen: Set<Seq<char>>,
    pub overload_counters: Map<Seq<char>, u32>,
    pub needs_complex: bool,
}

impl View for CodegenResult {
    type V = ResultView;

    open spec fn view(&self) -> ResultView {
        ResultView {
            items: self.items.deep_view(),
            codegen_id: self.codegen_id as nat,
            saw_union: self.saw_union,
            items_seen: self.items_seen@,
            functions_seen: self.functions_seen@,
            vars_seen: self.vars_seen@,
            overload_counters: self.overload_counters@,
            needs_complex: self.needs_complex,
        }
    }
}

impl ResultView {
    /// Nothing generated, with the counter and the flag as they stand.
    pub open spec fn fresh(codegen_id: nat, needs_complex: bool) -> ResultView {
        ResultView {
            items: seq![],
            codegen_id,
            saw_union: false,
            items_seen: Set::empty(),
            functions_seen: Set::empty(),
            vars_seen: Set::empty(),
            overload_counters: Map::empty(),
            needs_complex,
        }
    }

    /// One more item.
    pub open spec fn push(self, item: ItemView) -> ResultView {
        ResultView { items: self.items.push(item), ..self }
    }

    /// The declaration `id` is generated.
    pub open spec fn with_seen(self, id: ItemId) -> ResultView {
        ResultView { items_seen: self.items_seen.insert(id.0), ..self }
    }

    /// Complex numbers may have occurred.
    pub open spec fn with_complex(self, complex: bool) -> ResultView {
        ResultView { needs_complex: self.needs_complex || complex, ..self }
    }

    /// How many functions have been generated under a name.
    pub open spec fn overloads(self, name: Seq<char>) -> nat {
        if self.overload_counters.dom().contains(name) {
            self.overload_counters[name] as nat
        } else {
            0
        }
    }

    /// Whether the declarations generated are ones that the context holds,
    /// and there are at least `spare` more of them than functions under any
    /// one name.
    pub open spec fn counted(self, ctx: BindgenContext, spare: nat) -> bool {
        &&& forall|id: usize| #[trigger]
            self.items_seen.contains(id) ==> id < ctx.items@.len()
        &&& forall|name: Seq<char>| #[trigger]
            self.overloads(name) + spare <= self.items_seen.len()
    }
}

/// There are no more declarations seen than declarations.
pub proof fn lemma_seen_len(seen: Set<usize>, n: usize)
    requires
        forall|id: usize| #[trigger] seen.contains(id) ==> id < n,
    ensures
        seen.finite(),
        seen.len() <= n,
{
    broadcast use vstd::set_lib::range_set_properties;

    let all = Set::<usize>::range(0, n);
    assert(seen.subset_of(all));
    vstd::set_lib::lemma_set_subset_finite(all, seen);
    vstd::set_lib::lemma_len_subset(seen, all);
}

/// A declaration that was not seen leaves room for one more function of any
/// name.
pub proof fn lemma_counted_seen(ctx: BindgenContext, st: ResultView, id: ItemId)
    requires
        st.counted(ctx, 0),
        ctx.has(id),
        ctx.items@.len() <= u32::MAX,
        !st.items_seen.contains(id.0),
    ensures
        st.with_seen(id).counted(ctx, 1),
        st.with_seen(id).counted(ctx, 0),
        forall|name: Seq<char>| #[trigger] st.with_seen(id).overloads(name) < u32::MAX,
{
    let after = st.with_seen(id);
    lemma_seen_len(st.items_seen, ctx.items@.len() as usize);
    assert forall|name: Seq<char>| #[trigger] after.overloads(name) + 1
        <= after.items_seen.len() by {
        assert(st.overloads(name) + 0 <= st.items_seen.len());
    }
    lemma_seen_len(after.items_seen, ctx.items@.len() as usize);
    assert forall|name: Seq<char>| #[trigger] after.overloads(name) + 0
        <= after.items_seen.len() by {
        assert(after.overloads(name) + 1 <= after.items_seen.len());
    }
}

/// What leaves the declarations and the counts alone leaves room for as many.
pub proof fn lemma_counted_kept(ctx: BindgenContext, a: ResultView, b: ResultView)
    requires
        a.counted(ctx, 0),
        b.items_seen == a.items_seen,
        b.overload_counters == a.overload_counters,
    ensures
        b.counted(ctx, 0),
{
    assert forall|name: Seq<char>| #[trigger] b.overloads(name) + 0 <= b.items_seen.len() by {
        assert(a.overloads(name) + 0 <= a.items_seen.len());
    }
}

impl CodegenResult {
    /// Nothing generated.
    pub fn new(codegen_id: usize, needs_complex: bool) -> (r: CodegenResult)
        ensures
            r@ == ResultView::fresh(codegen_id as nat, needs_complex),
    {
        let r = CodegenResult {
            items: Vec::new(),
            codegen_id,
            saw_union: false,
            items_seen: HashSet::new(),
            functions_seen: StringHashSet::new(),
            vars_seen: StringHashSet::new(),
            overload_counters: StringHashMap::new(),
            needs_complex,
        };
        assert(r@ =~= ResultView::fresh(codegen_id as nat, needs_complex));
        r
    }

    /// Adds an item.
    pub fn push(&mut self, item: ast::Item)
        ensures
            final(self)@ == old(self)@.push(item@),
    {
        self.items.push(item);
        assert(self@ =~= old(self)@.push(item@));
    }

    /// An id that was not given before.
    pub fn next_id(&mut self) -> (id: usize)
        requires
            old(self).codegen_id < usize::MAX,
        ensures
            id == old(self)@.codegen_id + 1,
            final(self)@ == (ResultView { codegen_id: id as nat, ..old(self)@ }),
    {
        self.codegen_id = self.codegen_id + 1;
        self.codegen_id
    }

    /// Takes note of a union.
    pub fn saw_union(&mut self)
        ensures
            final(self)@ == (ResultView { saw_union: true, ..old(self)@ }),
    {
        self.saw_union = true;
    }

    /// Whether a declaration has been generated.
    pub fn seen(&self, item: ItemId) -> (b: bool)
        ensures
            b == self@.items_seen.contains(item.0),
    {
        self.items_seen.contains(&item.0)
    }

    /// Takes note of a declaration.
    pub fn set_seen(&mut self, item: ItemId)
        ensures
            final(self)@ == old(self)@.with_seen(item),
    {
        self.items_seen.insert(item.0);
    }

    /// Whether a function with this symbol has been generated.
    pub fn seen_function(&self, name: &str) -> (b: bool)
        ensures
            b == self@.functions_seen.contains(name@),
    {
        self.functions_seen.contains(name)
    }

    /// Takes note of the symbol of a function.
    pub fn saw_function(&mut self, name: &str)
        ensures
            final(self)@ == (ResultView {
                functions_seen: old(self)@.functions_seen.insert(name@),
                ..old(self)@
            }),
    {
        self.functions_seen.insert(name.to_owned());
    }

    /// How many functions have been generated under this name. The next call
    /// for the same name gives one more.
    pub fn overload_number(&mut self, name: &str) -> (number: u32)
        requires
            old(self)@.overloads(name@) < u32::MAX,
        ensures
            number == old(self)@.overloads(name@),
            final(self)@ == (ResultView {
                overload_counters: old(self)@.overload_counters.insert(
                    name@,
                    (number + 1) as u32,
                ),
                ..old(self)@
            }),
    {
        let number: u32 = match self.overload_counters.get(name) {
            Some(n) => *n,
            None => 0,
        };
        self.overload_counters.insert(name.to_owned(), number + 1);
        number
    }

    /// Whether a variable of this name has been generated.
    pub fn seen_var(&self, name: &str) -> (b: bool)
        ensures
            b == self@.vars_seen.contains(name@),
    {
        self.vars_seen.contains(name)
    }

    /// Takes note of the name of a variable.
    pub fn saw_var(&mut self, name: &str)
        ensures
            final(self)@ == (ResultView {
                vars_seen: old(self)@.vars_seen.insert(name@),
                ..old(self)@
            }),
    {
        self.vars_seen.insert(name.to_owned());
    }

    /// An empty result for the inside of a module, which goes on with the
    /// counter of this one.
    pub fn inner(&self) -> (new: CodegenResult)
        ensures
            new@ == ResultView::fresh(self@.codegen_id, self@.needs_complex),
    {
        CodegenResult::new(self.codegen_id, self.needs_complex)
    }

    /// Takes over what was noted inside a module, and gives back its items.
    pub fn finish_inner(&mut self, new: CodegenResult) -> (items: Vec<ast::Item>)
        ensures
            items.deep_view() == new@.items,
            final(self)@ == (ResultView {
                codegen_id: new@.codegen_id,
                saw_union: old(self)@.saw_union || new@.saw_union,
                needs_complex: new@.needs_complex,
                ..old(self)@
            }),
    {
        self.codegen_id = new.codegen_id;
        self.saw_union = self.saw_union || new.saw_union;
        self.needs_complex = new.needs_complex;
        new.items
    }
}

} // verus!
