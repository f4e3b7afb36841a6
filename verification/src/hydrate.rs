//! The attribute rewriter: expands the three `v-bind` forms on an
//! element's attributes and the mustache interpolations in a text node,
//! each applied exactly once per node before the directive processor
//! looks at it.
//!
//! The rewrite of an attribute list is stated as a plan: one action per
//! attribute — keep it, rename it, drop it, or expand it into added
//! attributes — applied in the fixed order renames, removals, additions
//! (an addition overwrites an existing attribute of the same name).
//! Which action an attribute gets is decided by [`decide_arg_action`]
//! and [`entry_value`] from the evaluator's replies, under exact
//! contracts; the replies themselves are the interpreter's.

use vstd::prelude::*;

use crate::dom::{Attr, AttrV, attrs_view, copy_attr, copy_chars, copy_opt_chars};
use crate::engine::Engine;
use crate::js::js_to_json;
use crate::json::{JsonKind, json_as_str_chars, json_kind, json_object_entries, json_text};
use crate::mustache::{MustV, mustaches, subst_from, lemma_match_wf_at, lemma_match_order_at,
    find_mustaches};
use crate::syntax::{bind_arg, bind_arg_spec, dynamic_arg, is_dynamic_arg};
use crate::text::{copy_range, eq_str, push_range, trim, trim_chars};
use crate::traverse::{find_local_from, lemma_find_local_from};

verus! {

/// Whether an attribute is one of the `v-bind` spellings that hydration
/// rewrites: the object form (local name exactly `v-bind`) or an
/// argument form (`v-bind:ARG` / `:ARG`).
pub open spec fn is_bindish(a: AttrV) -> bool {
    ||| a.local == "v-bind"@
    ||| bind_arg_spec(a.local) is Some
}

/// Whether no attribute of the list is a `v-bind` spelling.
pub open spec fn no_bind_attrs(attrs: Seq<AttrV>) -> bool {
    forall|i: int| 0 <= i < attrs.len() ==> !is_bindish(#[trigger] attrs[i])
}

/// What hydration does with one attribute.
pub enum AttrAction {
    /// The attribute stays as it is.
    Keep,
    /// An argument-form bind resolves: the attribute keeps its prefix
    /// and namespace and takes the resolved local name and value.
    Rename(Vec<char>, Vec<char>),
    /// The attribute is dropped.
    Drop,
    /// An object-form bind expands: the attribute is dropped, and one
    /// attribute per pair is added at the end of the list (overwriting
    /// an existing attribute of the same local name).
    Expand(Vec<(Vec<char>, Vec<char>)>),
}

/// The view of an [`AttrAction`].
pub enum ActionV {
    Keep,
    Rename(Seq<char>, Seq<char>),
    Drop,
    Expand(Seq<(Seq<char>, Seq<char>)>),
}

impl View for AttrAction {
    type V = ActionV;

    open spec fn view(&self) -> ActionV {
        match self {
            AttrAction::Keep => ActionV::Keep,
            AttrAction::Rename(n, v) => ActionV::Rename(n@, v@),
            AttrAction::Drop => ActionV::Drop,
            AttrAction::Expand(pairs) => ActionV::Expand(
                pairs@.map(|i: int, p: (Vec<char>, Vec<char>)| (p.0@, p.1@)),
            ),
        }
    }
}

/// The views of a list of actions.
pub open spec fn acts_view(s: Seq<AttrAction>) -> Seq<ActionV> {
    s.map(|i: int, a: AttrAction| a@)
}

/// The attributes that survive the rename and removal passes, in place:
/// a kept attribute as it was, a renamed one with its resolved local
/// name and value (prefix and namespace kept), nothing for a dropped or
/// expanded one.
pub open spec fn survivors(attrs: Seq<AttrV>, acts: Seq<ActionV>) -> Seq<AttrV>
    decreases attrs.len(),
{
    if attrs.len() == 0 || acts.len() == 0 {
        Seq::empty()
    } else {
        (match acts[0] {
            ActionV::Keep => seq![attrs[0]],
            ActionV::Rename(n, v) => seq![
                AttrV { prefix: attrs[0].prefix, ns: attrs[0].ns, local: n, value: v },
            ],
            _ => Seq::empty(),
        }) + survivors(
            attrs.subrange(1, attrs.len() as int),
            acts.subrange(1, acts.len() as int),
        )
    }
}

/// One addition: the value of the first attribute with that local name
/// is overwritten; with none present, an attribute is appended, taking
/// its prefix and namespace from the `v-bind` attribute it came from.
pub open spec fn add_one(s: Seq<AttrV>, proto: AttrV, name: Seq<char>, value: Seq<char>) -> Seq<
    AttrV,
> {
    match find_local_from(s, name, 0) {
        Some(j) => s.update(
            j,
            AttrV { prefix: s[j].prefix, ns: s[j].ns, local: s[j].local, value: value },
        ),
        None => s.push(AttrV { prefix: proto.prefix, ns: proto.ns, local: name, value: value }),
    }
}

/// The additions of one expanded attribute, applied in order.
pub open spec fn fold_adds(s: Seq<AttrV>, proto: AttrV, pairs: Seq<(Seq<char>, Seq<char>)>) -> Seq<
    AttrV,
>
    decreases pairs.len(),
{
    if pairs.len() == 0 {
        s
    } else {
        fold_adds(
            add_one(s, proto, pairs[0].0, pairs[0].1),
            proto,
            pairs.subrange(1, pairs.len() as int),
        )
    }
}

/// All additions, one expanded attribute after another, in attribute
/// order.
pub open spec fn apply_adds(
    s: Seq<AttrV>,
    attrs: Seq<AttrV>,
    acts: Seq<ActionV>,
    i: int,
) -> Seq<AttrV>
    decreases attrs.len() - i,
{
    if i < 0 || i >= attrs.len() || i >= acts.len() {
        s
    } else {
        apply_adds(
            match acts[i] {
                ActionV::Expand(pairs) => fold_adds(s, attrs[i], pairs),
                _ => s,
            },
            attrs,
            acts,
            i + 1,
        )
    }
}

/// A whole plan applied: renames in place, removals, then additions
/// with overwrite.
pub open spec fn apply_actions_spec(attrs: Seq<AttrV>, acts: Seq<ActionV>) -> Seq<AttrV> {
    apply_adds(survivors(attrs, acts), attrs, acts, 0)
}

/// What an argument-form bind does, given the evaluator's replies: a
/// dynamic argument with an empty value is dropped; a dynamic argument
/// whose name or value evaluation yields nothing is dropped; otherwise
/// it is renamed to the resolved name and value. A static argument is
/// renamed to itself with the evaluated value, or dropped when that
/// evaluation yields nothing.
pub open spec fn arg_action_spec(
    arg: Seq<char>,
    value_trimmed: Seq<char>,
    name_reply: Option<Seq<char>>,
    value_reply: Option<Seq<char>>,
) -> ActionV {
    if is_dynamic_arg(arg) {
        if value_trimmed.len() == 0 {
            ActionV::Drop
        } else {
            match (name_reply, value_reply) {
                (Some(n), Some(v)) => ActionV::Rename(n, v),
                _ => ActionV::Drop,
            }
        }
    } else {
        match value_reply {
            Some(v) => ActionV::Rename(arg, v),
            None => ActionV::Drop,
        }
    }
}

/// Runtime computation of [`arg_action_spec`]: the decision taken for
/// an argument-form bind once the evaluator has replied.
pub fn decide_arg_action(
    arg: Vec<char>,
    value_trimmed: &Vec<char>,
    name_reply: Option<Vec<char>>,
    value_reply: Option<Vec<char>>,
) -> (r: AttrAction)
    ensures
        r@ == arg_action_spec(
            arg@,
            value_trimmed@,
            match name_reply {
                Some(n) => Some(n@),
                None => None,
            },
            match value_reply {
                Some(v) => Some(v@),
                None => None,
            },
        ),
{
    if dynamic_arg(&arg) {
        if value_trimmed.len() == 0 {
            AttrAction::Drop
        } else {
            match (name_reply, value_reply) {
                (Some(n), Some(v)) => AttrAction::Rename(n, v),
                _ => AttrAction::Drop,
            }
        }
    } else {
        match value_reply {
            Some(v) => AttrAction::Rename(arg, v),
            None => AttrAction::Drop,
        }
    }
}

/// The text an object-form field contributes, given its kind and the
/// JSON replies: nothing for a null field (it is skipped), the raw
/// string for a string field, the JSON serialization for anything else.
pub open spec fn entry_value_spec(
    kind: JsonKind,
    raw: Option<Seq<char>>,
    text: Seq<char>,
) -> Option<Seq<char>> {
    match kind {
        JsonKind::Null => None,
        JsonKind::Str => Some(
            match raw {
                Some(r) => r,
                None => Seq::empty(),
            },
        ),
        _ => Some(text),
    }
}

/// Runtime computation of [`entry_value_spec`].
pub fn entry_value(kind: JsonKind, raw: Option<Vec<char>>, text: Vec<char>) -> (r: Option<
    Vec<char>,
>)
    ensures
        (match r {
            Some(v) => Some(v@),
            None => None,
        }) == entry_value_spec(
            kind,
            match raw {
                Some(x) => Some(x@),
                None => None,
            },
            text@,
        ),
{
    match kind {
        JsonKind::Null => None,
        JsonKind::Str => match raw {
            Some(r) => Some(r),
            None => Some(Vec::new()),
        },
        _ => Some(text),
    }
}

/// Whether an action is one the attribute could lawfully get: an
/// object-form attribute is kept (when its expression yields no object)
/// or expanded; an argument-form attribute gets exactly what
/// [`arg_action_spec`] says for some pair of evaluator replies; any
/// other attribute is kept.
pub open spec fn action_ok(a: AttrV, act: ActionV) -> bool {
    if a.local == "v-bind"@ {
        act is Keep || act is Expand
    } else {
        match bind_arg_spec(a.local) {
            Some(arg) => exists|nr: Option<Seq<char>>, vr: Option<Seq<char>>|
                act == #[trigger] arg_action_spec(arg, trim(a.value), nr, vr),
            None => act is Keep,
        }
    }
}

/// An all-keep plan applies to the identity.
proof fn lemma_apply_all_keep(attrs: Seq<AttrV>, acts: Seq<ActionV>)
    requires
        acts.len() == attrs.len(),
        forall|i: int| 0 <= i < acts.len() ==> (#[trigger] acts[i]) is Keep,
    ensures
        apply_actions_spec(attrs, acts) == attrs,
{
    lemma_survivors_all_keep(attrs, acts);
    lemma_apply_adds_no_expand(attrs, attrs, acts, 0);
}

proof fn lemma_survivors_all_keep(attrs: Seq<AttrV>, acts: Seq<ActionV>)
    requires
        acts.len() == attrs.len(),
        forall|i: int| 0 <= i < acts.len() ==> (#[trigger] acts[i]) is Keep,
    ensures
        survivors(attrs, acts) == attrs,
    decreases attrs.len(),
{
    if attrs.len() > 0 {
        let ar = attrs.subrange(1, attrs.len() as int);
        let cr = acts.subrange(1, acts.len() as int);
        assert(forall|i: int| 0 <= i < cr.len() ==> (#[trigger] cr[i]) == acts[i + 1]);
        lemma_survivors_all_keep(ar, cr);
        assert(survivors(attrs, acts) =~= attrs);
    }
}

proof fn lemma_apply_adds_no_expand(s: Seq<AttrV>, attrs: Seq<AttrV>, acts: Seq<ActionV>, i: int)
    requires
        forall|k: int| 0 <= k < acts.len() ==> !((#[trigger] acts[k]) is Expand),
    ensures
        apply_adds(s, attrs, acts, i) == s,
    decreases attrs.len() - i,
{
    if 0 <= i && i < attrs.len() && i < acts.len() {
        lemma_apply_adds_no_expand(s, attrs, acts, i + 1);
    }
}

/// Splitting [`survivors`] at any position of the lockstep walk.
proof fn lemma_survivors_split(attrs: Seq<AttrV>, acts: Seq<ActionV>, i: int)
    requires
        acts.len() == attrs.len(),
        0 <= i < attrs.len(),
    ensures
        survivors(attrs.subrange(i, attrs.len() as int), acts.subrange(i, acts.len() as int))
            == (match acts[i] {
            ActionV::Keep => seq![attrs[i]],
            ActionV::Rename(n, v) => seq![
                AttrV { prefix: attrs[i].prefix, ns: attrs[i].ns, local: n, value: v },
            ],
            _ => Seq::empty(),
        }) + survivors(
            attrs.subrange(i + 1, attrs.len() as int),
            acts.subrange(i + 1, acts.len() as int),
        ),
{
    let asuf = attrs.subrange(i, attrs.len() as int);
    let csuf = acts.subrange(i, acts.len() as int);
    assert(asuf[0] == attrs[i] && csuf[0] == acts[i]);
    assert(asuf.subrange(1, asuf.len() as int) =~= attrs.subrange(i + 1, attrs.len() as int));
    assert(csuf.subrange(1, csuf.len() as int) =~= acts.subrange(i + 1, acts.len() as int));
}

/// Whether two character lists hold the same characters.
pub fn chars_eq(a: &Vec<char>, b: &Vec<char>) -> (r: bool)
    ensures
        r == (a@ == b@),
{
    if a.len() != b.len() {
        return false;
    }
    let mut i: usize = 0;
    while i < a.len()
        invariant
            0 <= i <= a@.len(),
            a@.len() == b@.len(),
            forall|j: int| 0 <= j < i ==> a@[j] == b@[j],
        decreases a@.len() - i,
    {
        if a[i] != b[i] {
            proof {
                assert(a@[i as int] != b@[i as int]);
            }
            return false;
        }
        i += 1;
    }
    proof {
        assert(a@ =~= b@);
    }
    true
}

/// One addition, performed on the list being built.
fn add_attr(out: &mut Vec<Attr>, proto: &Attr, name: &Vec<char>, value: &Vec<char>)
    ensures
        attrs_view(final(out)@) == add_one(attrs_view(old(out)@), proto@, name@, value@),
{
    proof {
        lemma_find_local_from(attrs_view(out@), name@, 0);
    }
    let mut u: usize = 0;
    while u < out.len()
        invariant
            0 <= u <= out@.len(),
            forall|k: int| 0 <= k < u ==> attrs_view(out@)[k].local != name@,
            out@ == old(out)@,
        decreases out@.len() - u,
    {
        if chars_eq(&out[u].local, name) {
            proof {
                assert(attrs_view(out@)[u as int].local == name@);
                assert(find_local_from(attrs_view(out@), name@, 0) == Some(u as int)) by {
                    lemma_find_local_from(attrs_view(out@), name@, 0);
                    match find_local_from(attrs_view(out@), name@, 0) {
                        Some(j) => {
                            if j > u {
                                assert(attrs_view(out@)[u as int].local != name@);
                            }
                        },
                        None => {
                            assert(attrs_view(out@)[u as int].local != name@);
                        },
                    }
                }
            }
            let old_attr = out.remove(u);
            out.insert(
                u,
                Attr {
                    prefix: old_attr.prefix,
                    ns: old_attr.ns,
                    local: old_attr.local,
                    value: copy_chars(value),
                },
            );
            proof {
                assert(attrs_view(out@) =~= add_one(
                    attrs_view(old(out)@),
                    proto@,
                    name@,
                    value@,
                ));
            }
            return ;
        }
        u += 1;
    }
    out.push(
        Attr {
            prefix: copy_opt_chars(&proto.prefix),
            ns: copy_chars(&proto.ns),
            local: copy_chars(name),
            value: copy_chars(value),
        },
    );
    proof {
        crate::dom::lemma_attrs_view_push(old(out)@, out@[out@.len() - 1]);
        assert(attrs_view(out@) =~= add_one(attrs_view(old(out)@), proto@, name@, value@));
    }
}

/// Applies a plan: the rename and removal passes in place, then every
/// expansion's additions, in order.
#[verifier::loop_isolation(false)]
fn apply_actions(attrs: &Vec<Attr>, actions: &Vec<AttrAction>) -> (r: Vec<Attr>)
    requires
        actions@.len() == attrs@.len(),
    ensures
        attrs_view(r@) == apply_actions_spec(attrs_view(attrs@), acts_view(actions@)),
{
    let ghost av = attrs_view(attrs@);
    let ghost cv = acts_view(actions@);
    let mut out: Vec<Attr> = Vec::new();
    let mut i: usize = 0;
    proof {
        assert(av.subrange(0, av.len() as int) =~= av);
        assert(cv.subrange(0, cv.len() as int) =~= cv);
        assert(Seq::<AttrV>::empty() + survivors(av, cv) =~= survivors(av, cv));
    }
    while i < attrs.len()
        invariant
            0 <= i <= attrs@.len(),
            survivors(av, cv) == attrs_view(out@) + survivors(
                av.subrange(i as int, av.len() as int),
                cv.subrange(i as int, cv.len() as int),
            ),
        decreases attrs@.len() - i,
    {
        proof {
            lemma_survivors_split(av, cv, i as int);
            assert(cv[i as int] == actions@[i as int]@);
            assert(av[i as int] == attrs@[i as int]@);
        }
        let ghost prev = attrs_view(out@);
        match &actions[i] {
            AttrAction::Keep => {
                out.push(copy_attr(&attrs[i]));
                proof {
                    crate::dom::lemma_attrs_view_push(
                        out@.subrange(0, out@.len() - 1),
                        out@[out@.len() - 1],
                    );
                    assert(out@.subrange(0, out@.len() - 1).push(out@[out@.len() - 1]) =~= out@);
                    assert(attrs_view(out@) =~= prev.push(av[i as int]));
                    assert(attrs_view(out@) + survivors(
                        av.subrange(i + 1, av.len() as int),
                        cv.subrange(i + 1, cv.len() as int),
                    ) =~= survivors(av, cv));
                }
            },
            AttrAction::Rename(n, v) => {
                let a = &attrs[i];
                out.push(
                    Attr {
                        prefix: copy_opt_chars(&a.prefix),
                        ns: copy_chars(&a.ns),
                        local: copy_chars(n),
                        value: copy_chars(v),
                    },
                );
                proof {
                    crate::dom::lemma_attrs_view_push(
                        out@.subrange(0, out@.len() - 1),
                        out@[out@.len() - 1],
                    );
                    assert(out@.subrange(0, out@.len() - 1).push(out@[out@.len() - 1]) =~= out@);
                    assert(attrs_view(out@) + survivors(
                        av.subrange(i + 1, av.len() as int),
                        cv.subrange(i + 1, cv.len() as int),
                    ) =~= survivors(av, cv));
                }
            },
            AttrAction::Drop => {
                proof {
                    assert(attrs_view(out@) + survivors(
                        av.subrange(i + 1, av.len() as int),
                        cv.subrange(i + 1, cv.len() as int),
                    ) =~= survivors(av, cv));
                }
            },
            AttrAction::Expand(_) => {
                proof {
                    assert(attrs_view(out@) + survivors(
                        av.subrange(i + 1, av.len() as int),
                        cv.subrange(i + 1, cv.len() as int),
                    ) =~= survivors(av, cv));
                }
            },
        }
        i += 1;
    }
    proof {
        assert(survivors(
            av.subrange(av.len() as int, av.len() as int),
            cv.subrange(cv.len() as int, cv.len() as int),
        ) =~= Seq::<AttrV>::empty());
        assert(attrs_view(out@) =~= survivors(av, cv));
    }
    // Additions.
    let mut t: usize = 0;
    while t < attrs.len()
        invariant
            0 <= t <= attrs@.len(),
            apply_adds(attrs_view(out@), av, cv, t as int) == apply_actions_spec(av, cv),
        decreases attrs@.len() - t,
    {
        proof {
            assert(cv[t as int] == actions@[t as int]@);
            assert(av[t as int] == attrs@[t as int]@);
        }
        match &actions[t] {
            AttrAction::Expand(pairs) => {
                let ghost s0 = attrs_view(out@);
                let ghost pv = pairs@.map(|k: int, p: (Vec<char>, Vec<char>)| (p.0@, p.1@));
                let mut e: usize = 0;
                proof {
                    assert(pv.subrange(0, pv.len() as int) =~= pv);
                }
                while e < pairs.len()
                    invariant
                        0 <= e <= pairs@.len(),
                        fold_adds(
                            attrs_view(out@),
                            av[t as int],
                            pv.subrange(e as int, pv.len() as int),
                        ) == fold_adds(s0, av[t as int], pv),
                    decreases pairs@.len() - e,
                {
                    proof {
                        let psuf = pv.subrange(e as int, pv.len() as int);
                        assert(psuf[0] == pv[e as int]);
                        assert(psuf.subrange(1, psuf.len() as int) =~= pv.subrange(
                            e + 1,
                            pv.len() as int,
                        ));
                        assert(pv[e as int] == (pairs@[e as int].0@, pairs@[e as int].1@));
                    }
                    add_attr(&mut out, &attrs[t], &pairs[e].0, &pairs[e].1);
                    e += 1;
                }
                proof {
                    assert(pv.subrange(pv.len() as int, pv.len() as int).len() == 0);
                    assert(attrs_view(out@) == fold_adds(s0, av[t as int], pv));
                }
            },
            _ => {},
        }
        t += 1;
    }
    out
}

/// Rewrites an element's attributes: every attribute gets an action —
/// `v-bind` spellings as the evaluator's replies dictate, anything else
/// kept — and the plan is applied in the fixed order: renames, then
/// removals, then additions with overwrite.
#[verifier::loop_isolation(false)]
pub fn hydrate_attrs(attrs: Vec<Attr>, engine: &mut Engine) -> (r: Vec<Attr>)
    ensures
        final(engine).scopes() == old(engine).scopes(),
        no_bind_attrs(attrs_view(attrs@)) ==> attrs_view(r@) == attrs_view(attrs@),
        exists|acts: Seq<ActionV>|
            {
                &&& acts.len() == attrs_view(attrs@).len()
                &&& (forall|i: int|
                    0 <= i < acts.len() ==> action_ok(attrs_view(attrs@)[i], #[trigger] acts[i]))
                &&& attrs_view(r@) == #[trigger] apply_actions_spec(attrs_view(attrs@), acts)
            },
{
    let ghost av = attrs_view(attrs@);
    let mut actions: Vec<AttrAction> = Vec::new();
    let mut i: usize = 0;
    while i < attrs.len()
        invariant
            engine.scopes() == old(engine).scopes(),
            0 <= i <= attrs@.len(),
            actions@.len() == i,
            forall|k: int|
                0 <= k < i ==> action_ok(av[k], #[trigger] acts_view(actions@)[k]),
            no_bind_attrs(av) ==> forall|k: int|
                0 <= k < i ==> (#[trigger] acts_view(actions@)[k]) is Keep,
        decreases attrs@.len() - i,
    {
        let a = &attrs[i];
        proof {
            assert(av[i as int] == attrs@[i as int]@);
        }
        let act: AttrAction = if eq_str(&a.local, "v-bind") {
            proof {
                if no_bind_attrs(av) {
                    assert(is_bindish(av[i as int]));
                }
            }
            // Object form: evaluate, and expand a JSON object's fields.
            match engine.eval(&a.value) {
                Err(()) => AttrAction::Keep,
                Ok(js_val) => match js_to_json(&mut engine.context, &js_val) {
                    Ok(Some(json_val)) => match json_object_entries(&json_val) {
                        Some(entries) => {
                            let mut pairs: Vec<(Vec<char>, Vec<char>)> = Vec::new();
                            let mut e: usize = 0;
                            while e < entries.len()
                                invariant
                                    engine.scopes() == old(engine).scopes(),
                                decreases entries@.len() - e,
                            {
                                let (key, val) = (&entries[e].0, &entries[e].1);
                                let kind = json_kind(val);
                                let raw = json_as_str_chars(val);
                                let text = json_text(val);
                                match entry_value(kind, raw, text) {
                                    Some(v) => {
                                        pairs.push((copy_chars(key), v));
                                    },
                                    None => {},
                                }
                                e += 1;
                            }
                            AttrAction::Expand(pairs)
                        },
                        None => AttrAction::Keep,
                    },
                    _ => AttrAction::Keep,
                },
            }
        } else {
            match bind_arg(&a.local) {
                None => AttrAction::Keep,
                Some(arg) => {
                    proof {
                        if no_bind_attrs(av) {
                            assert(is_bindish(av[i as int]));
                        }
                    }
                    let value_trimmed = trim_chars(&a.value);
                    if dynamic_arg(&arg) {
                        if value_trimmed.len() == 0 {
                            decide_arg_action(arg, &value_trimmed, None, None)
                        } else {
                            let inner = copy_range(&arg, 1, arg.len() - 1);
                            match engine.eval_str(&inner) {
                                Some(resolved) => {
                                    let value_reply = engine.eval_str(&value_trimmed);
                                    decide_arg_action(
                                        arg,
                                        &value_trimmed,
                                        Some(resolved),
                                        value_reply,
                                    )
                                },
                                None => decide_arg_action(arg, &value_trimmed, None, None),
                            }
                        }
                    } else {
                        let value_reply = if value_trimmed.len() == 0 {
                            engine.eval_str(&arg)
                        } else {
                            engine.eval_str(&value_trimmed)
                        };
                        decide_arg_action(arg, &value_trimmed, None, value_reply)
                    }
                },
            }
        };
        proof {
            assert(action_ok(av[i as int], act@)) by {
                if av[i as int].local == "v-bind"@ {
                } else {
                    match bind_arg_spec(av[i as int].local) {
                        Some(_) => {
                        },
                        None => {},
                    }
                }
            }
        }
        let ghost prev_acts = actions@;
        actions.push(act);
        proof {
            assert(acts_view(actions@) =~= acts_view(prev_acts).push(act@));
            assert forall|k: int|
                0 <= k < i + 1 implies action_ok(av[k], #[trigger] acts_view(actions@)[k]) by {
                if k < i {
                    assert(acts_view(actions@)[k] == acts_view(prev_acts)[k]);
                }
            }
            if no_bind_attrs(av) {
                assert forall|k: int|
                    0 <= k < i + 1 implies (#[trigger] acts_view(actions@)[k]) is Keep by {
                    if k < i {
                        assert(acts_view(actions@)[k] == acts_view(prev_acts)[k]);
                    } else {
                        assert(!is_bindish(av[k]));
                    }
                }
            }
        }
        i += 1;
    }
    let out = apply_actions(&attrs, &actions);
    proof {
        if no_bind_attrs(av) {
            lemma_apply_all_keep(av, acts_view(actions@));
        }
    }
    out
}

/// Rewrites a text node's content: every mustache match is replaced by
/// the evaluation of its expression (the empty text when the evaluation
/// yields nothing), earlier matches evaluated first.
#[verifier::loop_isolation(false)]
pub fn hydrate_text(text: &Vec<char>, engine: &mut Engine) -> (r: (Vec<char>, Ghost<
    Seq<Seq<char>>,
>))
    ensures
        final(engine).scopes() == old(engine).scopes(),
        r.1@.len() == mustaches(text@).len(),
        r.0@ == subst_from(text@, mustaches(text@), r.1@, 0),
        mustaches(text@).len() == 0 ==> r.0@ == text@,
{
    let ms = find_mustaches(text);
    let ghost all = mustaches(text@);
    let mut out: Vec<char> = Vec::new();
    let ghost mut vals: Seq<Seq<char>> = Seq::empty();
    let mut pos: usize = 0;
    let mut i: usize = 0;
    proof {
        assert forall|fv: Seq<Seq<char>>|
            out@ + subst_from(text@, all.subrange(0, all.len() as int), fv, 0)
                == #[trigger] subst_from(text@, all, vals + fv, 0) by {
            assert(all.subrange(0, all.len() as int) =~= all);
            assert(vals + fv =~= fv);
            assert(out@ + subst_from(text@, all, fv, 0) =~= subst_from(text@, all, fv, 0));
        }
    }
    while i < ms.len()
        invariant
            engine.scopes() == old(engine).scopes(),
            0 <= i <= ms@.len(),
            vals.len() == i,
            pos <= text@.len(),
            i > 0 ==> pos == all[i - 1].end,
            i == 0 ==> pos == 0,
            forall|fv: Seq<Seq<char>>|
                out@ + subst_from(
                    text@,
                    all.subrange(i as int, all.len() as int),
                    fv,
                    pos as int,
                ) == #[trigger] subst_from(text@, all, vals + fv, 0),
        decreases ms@.len() - i,
    {
        proof {
            lemma_match_wf_at(text@, 0, i as int);
            if i > 0 {
                lemma_match_order_at(text@, 0, i - 1);
            }
            assert(ms@[i as int]@ == all[i as int]);
        }
        let m_start = ms[i].start;
        let m_end = ms[i].end;
        let value = match engine.eval_str(&ms[i].expr) {
            Some(v) => v,
            None => Vec::new(),
        };
        let ghost prev_out = out@;
        let ghost prev_vals = vals;
        let ghost prev_pos = pos as int;
        push_range(&mut out, text, pos, m_start);
        push_range(&mut out, &value, 0, value.len());
        proof {
            vals = vals.push(value@);
        }
        pos = m_end;
        i += 1;
        proof {
            let rest = all.subrange(i as int, all.len() as int);
            let restp = all.subrange(i - 1, all.len() as int);
            assert(restp[0] == all[i - 1]);
            assert(restp.subrange(1, restp.len() as int) =~= rest);
            assert forall|fv: Seq<Seq<char>>|
                out@ + subst_from(text@, rest, fv, pos as int) == #[trigger] subst_from(
                    text@,
                    all,
                    vals + fv,
                    0,
                ) by {
                let fvp = seq![value@] + fv;
                assert(prev_out + subst_from(text@, restp, fvp, prev_pos) == subst_from(
                    text@,
                    all,
                    prev_vals + fvp,
                    0,
                ));
                assert(fvp.subrange(1, fvp.len() as int) =~= fv);
                assert(fvp[0] == value@);
                assert(subst_from(text@, restp, fvp, prev_pos) == text@.subrange(
                    prev_pos,
                    all[i - 1].start,
                ) + value@ + subst_from(text@, rest, fv, all[i - 1].end));
                assert(out@ =~= prev_out + text@.subrange(prev_pos, all[i - 1].start) + value@);
                assert(out@ + subst_from(text@, rest, fv, pos as int) =~= prev_out + subst_from(
                    text@,
                    restp,
                    fvp,
                    prev_pos,
                ));
                assert(prev_vals + fvp =~= vals + fv);
            }
        }
    }
    push_range(&mut out, text, pos, text.len());
    proof {
        let rest = all.subrange(all.len() as int, all.len() as int);
        assert(rest.len() == 0);
        assert(subst_from(text@, rest, Seq::empty(), pos as int) == text@.subrange(
            pos as int,
            text@.len() as int,
        ));
        assert(out@ == subst_from(text@, all, vals + Seq::empty(), 0));
        assert(vals + Seq::<Seq<char>>::empty() =~= vals);
        if all.len() == 0 {
            assert(text@.subrange(0, text@.len() as int) =~= text@);
        }
    }
    (out, Ghost(vals))
}

} // verus!
