//! The expression evaluator: an embedded ECMAScript interpreter behind a
//! lexical scope stack. Each scope is an object installed on the
//! interpreter's global object under a fresh name; an expression is
//! evaluated wrapped in nested `with` blocks so that the innermost scope
//! resolves names first, and exiting a scope deletes its binding.
//!
//! The verified contracts pin the scope-stack discipline: which names the
//! stack holds, and that evaluation never disturbs it.

use vstd::prelude::*;

use crate::js::{
    JsClass, js_classify, js_delete_on, js_equals, js_eval, js_from_json, js_get_on, js_global,
    js_new_context, js_new_object, js_null, js_set_on, js_to_boolean, js_to_json, js_display,
};
use crate::json::{json_object_entries, json_text};
use crate::text::push_str_chars;

verus! {

/// The decimal digit character for `n`.
pub open spec fn digit(n: int) -> char {
    if n == 0 {
        '0'
    } else if n == 1 {
        '1'
    } else if n == 2 {
        '2'
    } else if n == 3 {
        '3'
    } else if n == 4 {
        '4'
    } else if n == 5 {
        '5'
    } else if n == 6 {
        '6'
    } else if n == 7 {
        '7'
    } else if n == 8 {
        '8'
    } else {
        '9'
    }
}

/// The decimal form of `n`.
pub open spec fn dec_digits(n: int) -> Seq<char>
    decreases n,
{
    if n < 10 {
        seq![digit(n)]
    } else {
        dec_digits(n / 10).push(digit(n % 10))
    }
}

/// Runtime computation of [`dec_digits`].
pub fn dec_chars(n: u64) -> (r: Vec<char>)
    ensures
        r@ == dec_digits(n as int),
    decreases n,
{
    let d: u64 = n % 10;
    let c: char = if d == 0 {
        '0'
    } else if d == 1 {
        '1'
    } else if d == 2 {
        '2'
    } else if d == 3 {
        '3'
    } else if d == 4 {
        '4'
    } else if d == 5 {
        '5'
    } else if d == 6 {
        '6'
    } else if d == 7 {
        '7'
    } else if d == 8 {
        '8'
    } else {
        '9'
    };
    if n < 10 {
        let mut r: Vec<char> = Vec::new();
        r.push(c);
        proof {
            assert(r@ =~= seq![digit(n as int)]);
        }
        r
    } else {
        let mut r = dec_chars(n / 10);
        r.push(c);
        r
    }
}

/// The name under which scope number `n` is installed on the global
/// object.
pub open spec fn scope_key(n: int) -> Seq<char> {
    "__scope_"@ + dec_digits(n)
}

/// Runtime computation of [`scope_key`].
pub fn scope_key_chars(n: u64) -> (r: Vec<char>)
    ensures
        r@ == scope_key(n as int),
{
    let mut r: Vec<char> = Vec::new();
    push_str_chars(&mut r, "__scope_");
    let d = dec_chars(n);
    let mut i: usize = 0;
    while i < d.len()
        invariant
            0 <= i <= d@.len(),
            r@ == "__scope_"@ + d@.subrange(0, i as int),
        decreases d@.len() - i,
    {
        r.push(d[i]);
        proof {
            assert(r@ =~= "__scope_"@ + d@.subrange(0, i + 1));
        }
        i += 1;
    }
    proof {
        assert(d@.subrange(0, d@.len() as int) =~= d@);
    }
    r
}

/// The views of a list of scope names.
pub open spec fn keys_view(v: Seq<Vec<char>>) -> Seq<Seq<char>> {
    v.map(|i: int, k: Vec<char>| k@)
}

/// One `with` wrapping layer around an expression body.
pub open spec fn wrap_one(body: Seq<char>, key: Seq<char>) -> Seq<char> {
    "with (globalThis[\""@ + key + "\"]) { "@ + body + " }"@
}

/// The expression text wrapped in nested `with` blocks: the first name
/// of `keys` (the oldest scope) is outermost, the last (the newest) is
/// innermost, so the newest scope resolves names first.
pub open spec fn wrapped(code: Seq<char>, keys: Seq<Seq<char>>) -> Seq<char>
    decreases keys.len(),
{
    if keys.len() == 0 {
        code
    } else {
        wrap_one(wrapped(code, keys.subrange(1, keys.len() as int)), keys[0])
    }
}

/// The evaluator: the interpreter's context, the installed scope names
/// (oldest first), and the number to use for the next scope name.
pub struct Engine {
    pub context: boa_engine::Context,
    pub scope_keys: Vec<Vec<char>>,
    pub scope_next: u64,
}

impl Engine {
    /// The names of the scopes now installed, oldest first.
    pub open spec fn scopes(&self) -> Seq<Seq<char>> {
        keys_view(self.scope_keys@)
    }

    /// Builds an evaluator seeded from a JSON payload: each top-level
    /// field of a JSON object becomes a binding of the base scope; any
    /// other payload seeds nothing.
    pub fn new(data: &serde_json::Value) -> (r: Engine)
        ensures
            r.scopes().len() <= 1,
    {
        let mut engine = Engine {
            context: js_new_context(),
            scope_keys: Vec::new(),
            scope_next: 0,
        };
        let entered = engine.enter_scope();
        if entered.is_err() {
            return engine;
        }
        match json_object_entries(data) {
            None => {},
            Some(entries) => {
                let ghost depth = engine.scopes().len();
                let mut i: usize = 0;
                while i < entries.len()
                    invariant
                        engine.scopes().len() == depth,
                    decreases entries@.len() - i,
                {
                    let (key, value) = (&entries[i].0, &entries[i].1);
                    match js_from_json(&mut engine.context, value) {
                        Ok(v) => {
                            engine.set_val(key, v);
                        },
                        Err(()) => {},
                    }
                    i += 1;
                }
            },
        }
        engine
    }

    /// Enters a fresh scope: a new empty object is installed on the
    /// global object under a fresh name, which is pushed on the stack.
    /// On failure the stack is unchanged.
    pub fn enter_scope(&mut self) -> (r: Result<(), ()>)
        ensures
            match r {
                Ok(()) => final(self).scopes() == old(self).scopes().push(
                    scope_key(old(self).scope_next as int),
                ),
                Err(()) => final(self).scopes() == old(self).scopes(),
            },
    {
        let key = scope_key_chars(self.scope_next);
        self.scope_next = if self.scope_next == u64::MAX {
            0
        } else {
            self.scope_next + 1
        };
        let obj = js_new_object(&mut self.context);
        let g = js_global(&mut self.context);
        match js_set_on(&mut self.context, &g, &key, obj) {
            Ok(()) => {
                let ghost prev = self.scope_keys@;
                self.scope_keys.push(key);
                proof {
                    assert(keys_view(self.scope_keys@) =~= keys_view(prev).push(
                        scope_key(old(self).scope_next as int),
                    ));
                }
                Ok(())
            },
            Err(()) => Err(()),
        }
    }

    /// Leaves the newest scope: its name is popped and its binding
    /// deleted from the global object.
    pub fn exit_scope(&mut self)
        ensures
            old(self).scopes().len() > 0 ==> final(self).scopes() == old(
                self,
            ).scopes().drop_last(),
            old(self).scopes().len() == 0 ==> final(self).scopes() == old(self).scopes(),
    {
        if self.scope_keys.len() > 0 {
            let ghost prev = self.scope_keys@;
            let key = self.scope_keys.pop().unwrap();
            let g = js_global(&mut self.context);
            js_delete_on(&mut self.context, &g, &key);
            proof {
                assert(keys_view(self.scope_keys@) =~= keys_view(prev).drop_last());
            }
        }
    }

    /// Sets a binding: into the newest scope's object when there is one
    /// and it can be read back as an object, else onto the global
    /// object.
    pub fn set_val(&mut self, key: &Vec<char>, value: boa_engine::JsValue)
        ensures
            final(self).scopes() == old(self).scopes(),
            final(self).scope_next == old(self).scope_next,
    {
        let g = js_global(&mut self.context);
        if self.scope_keys.len() > 0 {
            let idx = self.scope_keys.len() - 1;
            let last = crate::dom::copy_chars(&self.scope_keys[idx]);
            match js_get_on(&mut self.context, &g, &last) {
                Ok(local) => {
                    if matches!(js_classify(&local), JsClass::IsObject) {
                        let _ = js_set_on(&mut self.context, &local, key, value);
                        return ;
                    }
                    let _ = js_set_on(&mut self.context, &g, key, value);
                },
                Err(()) => {
                    let _ = js_set_on(&mut self.context, &g, key, value);
                },
            }
        } else {
            let _ = js_set_on(&mut self.context, &g, key, value);
        }
    }

    /// The expression text wrapped in the stack's `with` blocks.
    fn wrap_scopes(&self, code: &Vec<char>) -> (r: Vec<char>)
        ensures
            r@ == wrapped(code@, self.scopes()),
    {
        let mut acc = crate::dom::copy_chars(code);
        let mut i: usize = self.scope_keys.len();
        while i > 0
            invariant
                0 <= i <= self.scope_keys@.len(),
                acc@ == wrapped(
                    code@,
                    keys_view(self.scope_keys@).subrange(
                        i as int,
                        self.scope_keys@.len() as int,
                    ),
                ),
            decreases i,
        {
            i -= 1;
            let mut out: Vec<char> = Vec::new();
            push_str_chars(&mut out, "with (globalThis[\"");
            crate::text::push_range(&mut out, &self.scope_keys[i], 0, self.scope_keys[i].len());
            push_str_chars(&mut out, "\"]) { ");
            let mut j: usize = 0;
            while j < acc.len()
                invariant
                    0 <= j <= acc@.len(),
                    out@ == "with (globalThis[\""@ + self.scope_keys@[i as int]@ + "\"]) { "@
                        + acc@.subrange(0, j as int),
                decreases acc@.len() - j,
            {
                out.push(acc[j]);
                proof {
                    assert(out@ =~= "with (globalThis[\""@ + self.scope_keys@[i as int]@
                        + "\"]) { "@ + acc@.subrange(0, j + 1));
                }
                j += 1;
            }
            push_str_chars(&mut out, " }");
            proof {
                let ks = keys_view(self.scope_keys@);
                assert(acc@.subrange(0, acc@.len() as int) =~= acc@);
                assert(out@ =~= wrap_one(acc@, ks[i as int]));
                assert(ks.subrange(i as int, self.scope_keys@.len() as int).drop_first()
                    =~= ks.subrange(i + 1, self.scope_keys@.len() as int));
                assert(ks.subrange(i as int, self.scope_keys@.len() as int)[0] == ks[i as int]);
                assert(ks.subrange(i as int, self.scope_keys@.len() as int).subrange(
                    1,
                    ks.subrange(i as int, self.scope_keys@.len() as int).len() as int,
                ) =~= ks.subrange(i + 1, self.scope_keys@.len() as int));
            }
            acc = out;
        }
        proof {
            assert(keys_view(self.scope_keys@).subrange(0, self.scope_keys@.len() as int)
                =~= keys_view(self.scope_keys@));
        }
        acc
    }

    /// Evaluates an expression (or statement sequence) within the scope
    /// stack. A completion value equal to the global object (`this` at
    /// the top level) is reported as `null`, which the coercions treat
    /// as missing.
    pub fn eval(&mut self, code: &Vec<char>) -> (r: Result<boa_engine::JsValue, ()>)
        ensures
            final(self).scopes() == old(self).scopes(),
            final(self).scope_next == old(self).scope_next,
    {
        let scoped = self.wrap_scopes(code);
        match js_eval(&mut self.context, &scoped) {
            Err(()) => Err(()),
            Ok(v) => {
                let g = js_global(&mut self.context);
                match js_equals(&mut self.context, &v, &g) {
                    Err(()) => Err(()),
                    Ok(true) => Ok(js_null()),
                    Ok(false) => Ok(v),
                }
            },
        }
    }

    /// Evaluates and coerces to text: nothing for `null`, `undefined`
    /// or an error; otherwise what [`coerce_to_text`] says for the
    /// value's kind.
    pub fn eval_str(&mut self, code: &Vec<char>) -> (r: Option<Vec<char>>)
        ensures
            final(self).scopes() == old(self).scopes(),
            final(self).scope_next == old(self).scope_next,
    {
        match self.eval(code) {
            Err(()) => None,
            Ok(v) => {
                let class = js_classify(&v);
                coerce_to_text(&mut self.context, &v, class)
            },
        }
    }

    /// Evaluates and coerces to the language's truthiness; nothing on an
    /// evaluation error.
    pub fn eval_bool(&mut self, code: &Vec<char>) -> (r: Option<bool>)
        ensures
            final(self).scopes() == old(self).scopes(),
            final(self).scope_next == old(self).scope_next,
    {
        match self.eval(code) {
            Err(()) => None,
            Ok(v) => Some(js_to_boolean(&v)),
        }
    }
}

/// The string coercion of an evaluated value, by its classified kind:
/// nothing for `null` and `undefined`; a string's own characters; the
/// JSON serialization of an object or array (nothing when it has no
/// JSON form); the canonical display form of every other kind.
pub fn coerce_to_text(
    ctx: &mut boa_engine::Context,
    v: &boa_engine::JsValue,
    class: JsClass,
) -> (r: Option<Vec<char>>)
    ensures
        class is Null ==> r is None,
        class is Undefined ==> r is None,
        (match class {
            JsClass::Str(s) => r is Some && r.unwrap()@ == s@,
            _ => true,
        }),
        class is Int ==> r is Some,
        class is Other ==> r is Some,
{
    match class {
        JsClass::Null => None,
        JsClass::Undefined => None,
        JsClass::Str(s) => Some(s),
        JsClass::IsObject => match js_to_json(ctx, v) {
            Ok(Some(j)) => Some(json_text(&j)),
            _ => None,
        },
        _ => Some(js_display(v)),
    }
}

} // verus!
