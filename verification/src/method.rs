//! Methods: functions in an `impl` block that call the foreign function.
use vstd::hash_map::StringHashMap;
use vstd::prelude::*;

use crate::ast;
use crate::ast::{
    Arg, ArgView, Attr, AttrView, CallArg, CallArgView, FnDeclView, ImplItem, ImplItemView,
    Ty, TyView,
};
use crate::foreign;
use crate::ir::{BindgenContext, Function, FunctionSig, Method, TypeKind};
use crate::names;
use crate::names::{decimal, numbered};
use crate::types;
use crate::types::rust_fndecl_from_signature;

verus! {

/// The function that a method is.
pub open spec fn function_of(ctx: BindgenContext, method: Method) -> Function {
    ctx.item(method.signature).kind->Function_0
}

/// The signature of a method.
pub open spec fn sig_of(ctx: BindgenContext, method: Method) -> FunctionSig {
    ctx.ty(function_of(ctx, method).signature).kind->Function_0
}

/// How many of the first `n` methods that are not virtual have the given name.
pub open spec fn named_before(
    ctx: BindgenContext,
    methods: Seq<Method>,
    n: int,
    name: Seq<char>,
) -> nat
    decreases n,
{
    if n <= 0 {
        0
    } else if !methods[n - 1].is_virtual && function_of(ctx, methods[n - 1]).name@ == name {
        named_before(ctx, methods, n - 1, name) + 1
    } else {
        named_before(ctx, methods, n - 1, name)
    }
}

/// The name of the method at `k`: that of the function, with the number of
/// methods of that name before it, if there are any.
pub open spec fn method_name(ctx: BindgenContext, methods: Seq<Method>, k: int) -> Seq<char> {
    let name = function_of(ctx, methods[k]).name@;
    let count = named_before(ctx, methods, k, name);
    if count != 0 {
        name + names::decimal_digits(count)
    } else {
        name
    }
}

/// The declaration of a method: that of the function, whose first argument is
/// the receiver if the method is not static.
pub open spec fn method_decl(ctx: BindgenContext, method: Method) -> FnDeclView {
    let decl = types::sig_decl(ctx, function_of(ctx, method).signature).decl;
    if method.is_static {
        decl
    } else {
        FnDeclView {
            inputs: decl.inputs.update(
                0,
                ArgView { name: "self"@, ty: TyView::SelfRef { mutable: !method.is_const } },
            ),
            ..decl
        }
    }
}

/// What a method passes to the function at position `k`.
pub open spec fn call_arg(ctx: BindgenContext, method: Method, k: int) -> CallArgView {
    if k == 0 && !method.is_static {
        CallArgView::Receiver { mutable: !method.is_const }
    } else {
        CallArgView::Name(types::arg_name(ctx, sig_of(ctx, method).argument_types@, k))
    }
}

/// What a method passes to the function.
pub open spec fn call_args(ctx: BindgenContext, method: Method) -> Seq<CallArgView> {
    Seq::new(sig_of(ctx, method).argument_types@.len(), |k: int| call_arg(ctx, method, k))
}

/// The method at `k`.
pub open spec fn method_item(ctx: BindgenContext, methods: Seq<Method>, k: int) -> ImplItemView {
    ImplItemView::Method {
        name: method_name(ctx, methods, k),
        attrs: seq![AttrView::Inline],
        decl: method_decl(ctx, methods[k]),
        callee: ctx.item(methods[k].signature).canonical_name@,
        args: call_args(ctx, methods[k]),
    }
}

/// The first `n` methods, without those that are virtual.
pub open spec fn method_items(ctx: BindgenContext, methods: Seq<Method>, n: int) -> Seq<
    ImplItemView,
>
    decreases n,
{
    if n <= 0 {
        seq![]
    } else if methods[n - 1].is_virtual {
        method_items(ctx, methods, n - 1)
    } else {
        method_items(ctx, methods, n - 1).push(method_item(ctx, methods, n - 1))
    }
}

/// Whether a method can be generated: it is a function, and it has a first
/// argument if it is not static.
pub open spec fn method_ok(ctx: BindgenContext, method: Method) -> bool {
    !method.is_virtual ==> {
        &&& ctx.has(method.signature)
        &&& ctx.item(method.signature).kind is Function
        &&& foreign::function_ok(ctx, function_of(ctx, method))
        &&& !method.is_static ==> sig_of(ctx, method).argument_types@.len() > 0
    }
}

/// Whether `counts` says how often each name occurs among the first `n`
/// methods.
pub open spec fn counts_names(
    ctx: BindgenContext,
    methods: Seq<Method>,
    n: int,
    counts: Map<Seq<char>, usize>,
) -> bool {
    forall|name: Seq<char>|
        #![trigger named_before(ctx, methods, n, name)]
        #![trigger counts.dom().contains(name)]
        named_before(ctx, methods, n, name) == (if counts.dom().contains(name) {
            counts[name] as nat
        } else {
            0
        })
}

/// No name occurs more often than there are methods.
proof fn lemma_named_before(
    ctx: BindgenContext,
    methods: Seq<Method>,
    n: int,
    name: Seq<char>,
)
    requires
        0 <= n,
    ensures
        named_before(ctx, methods, n, name) <= n,
    decreases n,
{
    if n > 0 {
        lemma_named_before(ctx, methods, n - 1, name);
    }
}

impl Method {
    /// What this method passes to the function.
    fn call_exprs(&self, ctx: &BindgenContext, signature: &FunctionSig) -> (r: Vec<CallArg>)
        requires
            sig_of(*ctx, *self) == *signature,
        ensures
            r.deep_view() == call_args(*ctx, *self),
    {
        let ghost args = signature.argument_types@;
        let mut r: Vec<CallArg> = Vec::new();
        let mut unnamed_arguments: usize = 0;
        let mut i: usize = 0;
        while i < signature.argument_types.len()
            invariant
                0 <= i <= args.len(),
                args == signature.argument_types@,
                sig_of(*ctx, *self) == *signature,
                r@.len() == i,
                unnamed_arguments == types::unnamed_before(args, i as int),
                unnamed_arguments <= i,
                forall|k: int| 0 <= k < i ==> (#[trigger] r@[k])@ == call_arg(*ctx, *self, k),
            decreases args.len() - i,
        {
            let arg = &signature.argument_types[i];
            assert(*arg == args[i as int]);
            let arg_name = match &arg.0 {
                Some(name) => ctx.rust_mangle(name.as_str()),
                None => {
                    unnamed_arguments += 1;
                    numbered("arg", unnamed_arguments)
                },
            };
            if i == 0 && !self.is_static {
                r.push(CallArg::Receiver { mutable: !self.is_const });
            } else {
                r.push(CallArg::Name(arg_name));
            }
            i += 1;
        }
        assert(r.deep_view() =~= call_args(*ctx, *self));
        r
    }

    /// Adds this method, the one at `k`, to `methods`, once its function has
    /// been generated.
    pub(crate) fn push_method(
        &self,
        ctx: &BindgenContext,
        methods: &mut Vec<ImplItem>,
        method_names: &mut StringHashMap<usize>,
        complex: &mut bool,
        Ghost(all): Ghost<Seq<Method>>,
        Ghost(k): Ghost<int>,
    )
        requires
            ctx.ids_wf(),
            0 <= k < all.len() <= usize::MAX,
            all[k] == *self,
            !self.is_virtual,
            method_ok(*ctx, *self),
            counts_names(*ctx, all, k, old(method_names)@),
        ensures
            final(methods).deep_view() == old(methods).deep_view().push(
                method_item(*ctx, all, k),
            ),
            counts_names(*ctx, all, k + 1, final(method_names)@),
            *final(complex) == (*old(complex) || types::sig_decl(
                *ctx,
                function_of(*ctx, *self).signature,
            ).complex),
    {
        let function_item = ctx.resolve_item(self.signature);
        let function = function_item.expect_function();
        let mut name = function.name.clone();
        let signature_item = ctx.resolve_item(function.signature);
        let signature = match &signature_item.expect_type().kind {
            TypeKind::Function(sig) => sig,
            _ => {
                proof {
                    assert(false);
                }
                unreached()
            },
        };
        let ghost counts = method_names@;
        let count: usize = match method_names.get(name.as_str()) {
            Some(n) => *n,
            None => 0,
        };
        proof {
            lemma_named_before(*ctx, all, k, name@);
            assert(named_before(*ctx, all, k, name@) == count);
        }
        method_names.insert(name.clone(), count + 1);
        proof {
            assert forall|other: Seq<char>|
                named_before(*ctx, all, k + 1, other) == (if method_names@.dom().contains(other) {
                    method_names@[other] as nat
                } else {
                    0
                }) by {
                assert(named_before(*ctx, all, k, other) == (if counts.dom().contains(other) {
                    counts[other] as nat
                } else {
                    0
                }));
            }
        }
        if count != 0 {
            name.append(decimal(count).as_str());
        }
        let mut fndecl = rust_fndecl_from_signature(ctx, signature_item, complex);
        let ghost plain = fndecl;
        proof {
            ast::lemma_fn_decl_view(plain);
        }
        if !self.is_static {
            let receiver = Arg {
                name: "self".to_owned(),
                ty: Ty::SelfRef { mutable: !self.is_const },
            };
            assert(fndecl.inputs@.len() == fndecl@.inputs.len());
            fndecl.inputs.set(0, receiver);
            proof {
                ast::lemma_fn_decl_view(fndecl);
                assert(fndecl@.inputs =~= plain@.inputs.update(0, receiver@));
            }
        }
        assert(fndecl@ == method_decl(*ctx, *self));
        let mut attrs: Vec<Attr> = Vec::new();
        attrs.push(Attr::Inline);
        assert(attrs.deep_view() =~= seq![AttrView::Inline]);
        let ghost before = methods.deep_view();
        let added = ImplItem::Method {
            name,
            attrs,
            decl: fndecl,
            callee: function_item.canonical_name.clone(),
            args: self.call_exprs(ctx, signature),
        };
        methods.push(added);
        assert(methods.deep_view() =~= before.push(added@));
    }
}

} // verus!
