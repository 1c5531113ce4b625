//! The state that evaluation carries: parameters, the call stack and depth
//! for cycle detection, the string context, warnings and the `:from`
//! context.
use vstd::prelude::*;
use crate::types::{Value, ValueModel};
use crate::errors::{EvalError, EvalErrorModel, EvalWarning};
use crate::ast::strings_view;
use crate::text::{str_eq, to_string, chars_of, chars_eq};

verus! {

/// Parameters by name: the first entry with a name is its value.
pub open spec fn params_view(v: Seq<(String, Value)>) -> Seq<(Seq<char>, ValueModel)> {
    v.map_values(|e: (String, Value)| (e.0@, e.1@))
}

/// The value of the first parameter named `name`.
pub open spec fn env_get(env: Seq<(Seq<char>, ValueModel)>, name: Seq<char>) -> Option<ValueModel>
    decreases env.len(),
{
    if env.len() == 0 {
        None
    } else if env[0].0 == name {
        Some(env[0].1)
    } else {
        env_get(env.drop_first(), name)
    }
}

/// The contents of a warning.
pub enum EvalWarningModel {
    PhraseArgumentWithoutFrom { phrase: Seq<char>, parameter: Seq<char> },
    MissingSelectorOnMultiDimensional { parameter: Seq<char>, available_keys: Seq<Seq<char>> },
}

impl View for EvalWarning {
    type V = EvalWarningModel;

    open spec fn view(&self) -> EvalWarningModel {
        match self {
            EvalWarning::PhraseArgumentWithoutFrom { phrase, parameter } => EvalWarningModel::PhraseArgumentWithoutFrom {
                phrase: phrase@,
                parameter: parameter@,
            },
            EvalWarning::MissingSelectorOnMultiDimensional { parameter, available_keys } => EvalWarningModel::MissingSelectorOnMultiDimensional {
                parameter: parameter@,
                available_keys: strings_view(available_keys@),
            },
        }
    }
}

pub open spec fn warnings_view(v: Seq<EvalWarning>) -> Seq<EvalWarningModel> {
    v.map_values(|w: EvalWarning| w@)
}

/// The state of an evaluation.
pub struct CtxModel {
    pub params: Seq<(Seq<char>, ValueModel)>,
    pub stack: Seq<Seq<char>>,
    pub depth: nat,
    pub max_depth: nat,
    pub string_context: Option<Seq<char>>,
    pub warnings: Seq<EvalWarningModel>,
    pub from_context: Seq<Seq<char>>,
    pub nesting: nat,
}

/// The most contexts that may be opened one inside another (each phrase call
/// and each `:from` variant opens one). Evaluation that would go deeper ends
/// with `MaxDepthExceeded`.
pub open spec fn max_nesting() -> nat {
    256
}

/// The default maximum depth of term references.
pub open spec fn default_max_depth() -> nat {
    64
}

/// Evaluation context carrying state through recursive evaluation.
pub struct EvalContext<'a> {
    params: &'a Vec<(String, Value)>,
    call_stack: Vec<String>,
    depth: usize,
    max_depth: usize,
    string_context: Option<String>,
    warnings: Vec<EvalWarning>,
    from_context: Vec<String>,
    nesting: usize,
}

impl<'a> View for EvalContext<'a> {
    type V = CtxModel;

    closed spec fn view(&self) -> CtxModel {
        CtxModel {
            params: params_view(self.params@),
            stack: strings_view(self.call_stack@),
            depth: self.depth as nat,
            max_depth: self.max_depth as nat,
            string_context: match self.string_context {
                Some(s) => Some(s@),
                None => None,
            },
            warnings: warnings_view(self.warnings@),
            from_context: strings_view(self.from_context@),
            nesting: self.nesting as nat,
        }
    }
}

/// A fresh context for the given parameters.
pub open spec fn fresh_ctx(params: Seq<(Seq<char>, ValueModel)>, max_depth: nat, string_context: Option<Seq<char>>, nesting: nat) -> CtxModel {
    CtxModel {
        params,
        stack: seq![],
        depth: 0,
        max_depth,
        string_context,
        warnings: seq![],
        from_context: seq![],
        nesting,
    }
}

/// What `push_call` does: an error where the depth limit is reached or the
/// name is already on the stack, else the context with the name pushed.
pub open spec fn push_spec(c: CtxModel, name: Seq<char>) -> Result<CtxModel, EvalErrorModel> {
    if c.depth >= c.max_depth {
        Err(EvalErrorModel::MaxDepthExceeded)
    } else if c.stack.contains(name) {
        Err(EvalErrorModel::CyclicReference(c.stack.push(name)))
    } else {
        Ok(CtxModel { stack: c.stack.push(name), depth: c.depth + 1, ..c })
    }
}

/// What `pop_call` does: the last name leaves the stack and the depth goes
/// down by one (neither goes below empty or zero).
pub open spec fn pop_spec(c: CtxModel) -> CtxModel {
    CtxModel {
        stack: if c.stack.len() > 0 {
            c.stack.drop_last()
        } else {
            c.stack
        },
        depth: if c.depth > 0 {
            (c.depth - 1) as nat
        } else {
            0
        },
        ..c
    }
}

fn same_strings(a: &Vec<String>, b: &Vec<String>) -> (r: bool)
    ensures
        r == (strings_view(a@) == strings_view(b@)),
{
    if a.len() != b.len() {
        return false;
    }
    let mut i: usize = 0;
    while i < a.len()
        invariant
            i <= a.len(),
            a.len() == b.len(),
            forall|j: int| 0 <= j < i ==> a@[j]@ == b@[j]@,
        decreases a.len() - i,
    {
        if !str_eq(a[i].as_str(), b[i].as_str()) {
            assert(strings_view(a@)[i as int] != strings_view(b@)[i as int]);
            return false;
        }
        i = i + 1;
    }
    assert(strings_view(a@) =~= strings_view(b@));
    true
}

fn same_warning(a: &EvalWarning, b: &EvalWarning) -> (r: bool)
    ensures
        r == (a@ == b@),
{
    match (a, b) {
        (
            EvalWarning::PhraseArgumentWithoutFrom { phrase: p1, parameter: q1 },
            EvalWarning::PhraseArgumentWithoutFrom { phrase: p2, parameter: q2 },
        ) => str_eq(p1.as_str(), p2.as_str()) && str_eq(q1.as_str(), q2.as_str()),
        (
            EvalWarning::MissingSelectorOnMultiDimensional { parameter: q1, available_keys: k1 },
            EvalWarning::MissingSelectorOnMultiDimensional { parameter: q2, available_keys: k2 },
        ) => str_eq(q1.as_str(), q2.as_str()) && same_strings(k1, k2),
        _ => false,
    }
}

impl<'a> EvalContext<'a> {
    /// A context with the given parameters, the default maximum depth and
    /// no string context.
    pub fn new(params: &'a Vec<(String, Value)>) -> (r: EvalContext<'a>)
        ensures
            r@ == fresh_ctx(params_view(params@), default_max_depth(), None, 0),
    {
        let r = EvalContext {
            params,
            call_stack: Vec::new(),
            depth: 0,
            max_depth: 64,
            string_context: None,
            warnings: Vec::new(),
            from_context: Vec::new(),
            nesting: 0,
        };
        assert(r@.stack =~= seq![]);
        assert(r@.warnings =~= seq![]);
        assert(r@.from_context =~= seq![]);
        r
    }

    /// A context with a custom maximum depth.
    pub fn with_max_depth(params: &'a Vec<(String, Value)>, max_depth: usize) -> (r: EvalContext<'a>)
        ensures
            r@ == fresh_ctx(params_view(params@), max_depth as nat, None, 0),
    {
        let r = EvalContext {
            params,
            call_stack: Vec::new(),
            depth: 0,
            max_depth,
            string_context: None,
            warnings: Vec::new(),
            from_context: Vec::new(),
            nesting: 0,
        };
        assert(r@.stack =~= seq![]);
        assert(r@.warnings =~= seq![]);
        assert(r@.from_context =~= seq![]);
        r
    }

    /// A context with a string context for format variant selection.
    pub fn with_string_context(params: &'a Vec<(String, Value)>, string_context: Option<String>) -> (r: EvalContext<'a>)
        ensures
            r@ == fresh_ctx(
                params_view(params@),
                default_max_depth(),
                match string_context {
                    Some(s) => Some(s@),
                    None => None,
                },
                0,
            ),
    {
        let r = EvalContext {
            params,
            call_stack: Vec::new(),
            depth: 0,
            max_depth: 64,
            string_context,
            warnings: Vec::new(),
            from_context: Vec::new(),
            nesting: 0,
        };
        assert(r@.stack =~= seq![]);
        assert(r@.warnings =~= seq![]);
        assert(r@.from_context =~= seq![]);
        r
    }

    /// A context for evaluating inside this one: the given parameters, this
    /// context's string context, and one more level of nesting.
    pub(crate) fn child<'b>(&self, params: &'b Vec<(String, Value)>) -> (r: EvalContext<'b>)
        requires
            self@.nesting < max_nesting(),
        ensures
            r@ == fresh_ctx(
                params_view(params@),
                default_max_depth(),
                self@.string_context,
                self@.nesting + 1,
            ),
    {
        let sc = match &self.string_context {
            Some(s) => Some(s.clone()),
            None => None,
        };
        let r = EvalContext {
            params,
            call_stack: Vec::new(),
            depth: 0,
            max_depth: 64,
            string_context: sc,
            warnings: Vec::new(),
            from_context: Vec::new(),
            nesting: self.nesting + 1,
        };
        assert(r@.stack =~= seq![]);
        assert(r@.warnings =~= seq![]);
        assert(r@.from_context =~= seq![]);
        r
    }

    /// How many contexts enclose this one.
    pub(crate) fn nesting(&self) -> (r: usize)
        ensures
            r == self@.nesting,
    {
        self.nesting
    }

    /// The parameters of this context.
    pub(crate) fn params(&self) -> (r: &'a Vec<(String, Value)>)
        ensures
            params_view(r@) == self@.params,
    {
        self.params
    }

    /// The value of the parameter `name`.
    pub fn get_param(&self, name: &str) -> (r: Option<&'a Value>)
        ensures
            match r {
                Some(v) => env_get(self@.params, name@) == Some(v@),
                None => env_get(self@.params, name@) is None,
            },
    {
        let ghost env = self@.params;
        let mut i: usize = 0;
        assert(env.skip(0) =~= env);
        while i < self.params.len()
            invariant
                i <= self.params.len(),
                env == params_view(self.params@),
                env_get(env, name@) == env_get(env.skip(i as int), name@),
            decreases self.params.len() - i,
        {
            let ghost rest = env.skip(i as int);
            assert(rest[0] == (self.params@[i as int].0@, self.params@[i as int].1@));
            if str_eq(self.params[i].0.as_str(), name) {
                return Some(&self.params[i].1);
            }
            assert(rest.drop_first() =~= env.skip(i as int + 1));
            i = i + 1;
        }
        None
    }

    /// Whether `name` is on the call stack.
    pub fn is_in_call_stack(&self, name: &str) -> (r: bool)
        ensures
            r == self@.stack.contains(name@),
    {
        let mut i: usize = 0;
        while i < self.call_stack.len()
            invariant
                i <= self.call_stack.len(),
                forall|j: int| 0 <= j < i ==> self.call_stack@[j]@ != name@,
            decreases self.call_stack.len() - i,
        {
            if str_eq(self.call_stack[i].as_str(), name) {
                assert(self@.stack[i as int] == name@);
                return true;
            }
            i = i + 1;
        }
        proof {
            if self@.stack.contains(name@) {
                let j = choose|j: int| 0 <= j < self@.stack.len() && self@.stack[j] == name@;
                assert(self.call_stack@[j]@ == name@);
            }
        }
        false
    }

    /// Pushes a phrase call: fails where the maximum depth is reached or the
    /// name is already on the stack (a cycle, reported with the chain).
    pub fn push_call(&mut self, name: &str) -> (r: Result<(), EvalError>)
        ensures
            match push_spec(old(self)@, name@) {
                Ok(c) => r is Ok && final(self)@ == c,
                Err(e) => r matches Err(x) && x@ == e && final(self)@ == old(self)@,
            },
    {
        if self.depth >= self.max_depth {
            return Err(EvalError::MaxDepthExceeded);
        }
        if self.is_in_call_stack(name) {
            let mut chain: Vec<String> = Vec::new();
            let mut i: usize = 0;
            while i < self.call_stack.len()
                invariant
                    i <= self.call_stack.len(),
                    strings_view(chain@) == strings_view(self.call_stack@).take(i as int),
                decreases self.call_stack.len() - i,
            {
                let ghost before = strings_view(chain@);
                chain.push(crate::text::copy_string(&self.call_stack[i]));
                assert(strings_view(chain@) =~= before.push(self.call_stack@[i as int]@));
                assert(strings_view(chain@) =~= strings_view(self.call_stack@).take(i as int + 1));
                i = i + 1;
            }
            assert(strings_view(self.call_stack@).take(i as int) =~= strings_view(self.call_stack@));
            let ghost before = strings_view(chain@);
            chain.push(to_string(name));
            assert(strings_view(chain@) =~= self@.stack.push(name@));
            return Err(EvalError::CyclicReference { chain });
        }
        let ghost before = strings_view(self.call_stack@);
        self.call_stack.push(to_string(name));
        assert(strings_view(self.call_stack@) =~= before.push(name@));
        self.depth = self.depth + 1;
        Ok(())
    }

    /// Pops a phrase call.
    pub fn pop_call(&mut self)
        ensures
            final(self)@ == pop_spec(old(self)@),
    {
        let ghost before = strings_view(self.call_stack@);
        if self.call_stack.len() > 0 {
            self.call_stack.pop();
            assert(strings_view(self.call_stack@) =~= before.drop_last());
        }
        if self.depth > 0 {
            self.depth = self.depth - 1;
        }
    }

    /// The current depth.
    pub fn depth(&self) -> (r: usize)
        ensures
            r == self@.depth,
    {
        self.depth
    }

    /// The call stack.
    pub fn call_stack(&self) -> (r: &[String])
        ensures
            strings_view(r@) == self@.stack,
    {
        self.call_stack.as_slice()
    }

    /// The string context, if any.
    pub fn string_context(&self) -> (r: Option<&str>)
        ensures
            match r {
                Some(s) => self@.string_context == Some(s@),
                None => self@.string_context is None,
            },
    {
        match &self.string_context {
            Some(s) => Some(s.as_str()),
            None => None,
        }
    }

    /// Adds a warning unless an equal one is there.
    pub fn add_warning(&mut self, warning: EvalWarning)
        ensures
            final(self)@ == (CtxModel {
                warnings: if old(self)@.warnings.contains(warning@) {
                    old(self)@.warnings
                } else {
                    old(self)@.warnings.push(warning@)
                },
                ..old(self)@
            }),
    {
        let mut i: usize = 0;
        while i < self.warnings.len()
            invariant
                i <= self.warnings.len(),
                forall|j: int| 0 <= j < i ==> self.warnings@[j]@ != warning@,
            decreases self.warnings.len() - i,
        {
            if same_warning(&self.warnings[i], &warning) {
                assert(self@.warnings[i as int] == warning@);
                return;
            }
            i = i + 1;
        }
        proof {
            if self@.warnings.contains(warning@) {
                let j = choose|j: int| 0 <= j < self@.warnings.len() && self@.warnings[j] == warning@;
                assert(self.warnings@[j]@ == warning@);
            }
        }
        let ghost before = warnings_view(self.warnings@);
        let ghost w = warning@;
        self.warnings.push(warning);
        assert(warnings_view(self.warnings@) =~= before.push(w));
    }

    /// Takes the collected warnings, leaving none.
    pub fn take_warnings(&mut self) -> (r: Vec<EvalWarning>)
        ensures
            warnings_view(r@) == old(self)@.warnings,
            final(self)@ == (CtxModel { warnings: seq![], ..old(self)@ }),
    {
        let mut r: Vec<EvalWarning> = Vec::new();
        std::mem::swap(&mut r, &mut self.warnings);
        assert(warnings_view(self.warnings@) =~= seq![]);
        r
    }

    /// The collected warnings.
    pub fn warnings(&self) -> (r: &[EvalWarning])
        ensures
            warnings_view(r@) == self@.warnings,
    {
        self.warnings.as_slice()
    }

    /// Moves the warnings of a child context into this one, each unless an
    /// equal one is there.
    pub fn merge_warnings_from(&mut self, child: &mut EvalContext<'_>)
        ensures
            final(child)@ == (CtxModel { warnings: seq![], ..old(child)@ }),
            final(self)@ == (CtxModel {
                warnings: merged_warnings(old(self)@.warnings, old(child)@.warnings),
                ..old(self)@
            }),
    {
        let ws = child.take_warnings();
        let ghost wv = warnings_view(ws@);
        let mut ws = ws;
        let ghost mut i: int = 0;
        let ghost start = self@;
        while ws.len() > 0
            invariant
                0 <= i,
                wv.len() == i + ws.len(),
                warnings_view(ws@) == wv.skip(i as int),
                self@ == (CtxModel {
                    warnings: merged_warnings(start.warnings, wv.take(i as int)),
                    ..start
                }),
            decreases ws.len(),
        {
            let ghost old_vec = ws@;
            let w = ws.remove(0);
            assert(warnings_view(old_vec)[0] == old_vec[0]@);
            assert(w@ == wv[i as int]);
            assert(wv.take(i as int + 1).drop_last() =~= wv.take(i as int));
            self.add_warning(w);
            assert(warnings_view(ws@) =~= warnings_view(old_vec).drop_first());
            assert(warnings_view(ws@) =~= wv.skip(i as int + 1));
            proof {
                i = i + 1;
            }
        }
        assert(wv.take(i as int) =~= wv);
    }

    /// Adds a parameter to the `:from` context.
    pub fn add_from_context(&mut self, param: &str)
        ensures
            final(self)@ == (CtxModel {
                from_context: if old(self)@.from_context.contains(param@) {
                    old(self)@.from_context
                } else {
                    old(self)@.from_context.push(param@)
                },
                ..old(self)@
            }),
    {
        if self.is_in_from_context(param) {
            return;
        }
        let ghost before = strings_view(self.from_context@);
        self.from_context.push(to_string(param));
        assert(strings_view(self.from_context@) =~= before.push(param@));
    }

    /// Whether a parameter is in the `:from` context.
    pub fn is_in_from_context(&self, param: &str) -> (r: bool)
        ensures
            r == self@.from_context.contains(param@),
    {
        let mut i: usize = 0;
        while i < self.from_context.len()
            invariant
                i <= self.from_context.len(),
                forall|j: int| 0 <= j < i ==> self.from_context@[j]@ != param@,
            decreases self.from_context.len() - i,
        {
            if str_eq(self.from_context[i].as_str(), param) {
                assert(self@.from_context[i as int] == param@);
                return true;
            }
            i = i + 1;
        }
        proof {
            if self@.from_context.contains(param@) {
                let j = choose|j: int|
                    0 <= j < self@.from_context.len() && self@.from_context[j] == param@;
                assert(self.from_context@[j]@ == param@);
            }
        }
        false
    }
}

/// `new` is `old` with possibly more names on the call stack (and any
/// depth): what is left of a context after an evaluation that failed.
pub open spec fn ctx_extends(old: CtxModel, new: CtxModel) -> bool {
    &&& new.params == old.params
    &&& new.max_depth == old.max_depth
    &&& new.string_context == old.string_context
    &&& new.warnings == old.warnings
    &&& new.from_context == old.from_context
    &&& new.nesting == old.nesting
    &&& old.stack.len() <= new.stack.len()
    &&& forall|i: int| 0 <= i < old.stack.len() ==> #[trigger] new.stack[i] == old.stack[i]
}

/// `ws` added one by one to `base`, each unless an equal one is there.
pub open spec fn merged_warnings(base: Seq<EvalWarningModel>, ws: Seq<EvalWarningModel>) -> Seq<EvalWarningModel>
    decreases ws.len(),
{
    if ws.len() == 0 {
        base
    } else {
        let m = merged_warnings(base, ws.drop_last());
        if m.contains(ws.last()) {
            m
        } else {
            m.push(ws.last())
        }
    }
}

} // verus!
