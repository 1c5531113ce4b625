//! The phrase registry: definitions by name and by id, and the cache of
//! parsed templates.
use vstd::prelude::*;
use crate::ast::{PhraseDefinitionModel, SegmentModel, PhraseDefinition, definitions_view, strings_view};
use crate::semantics::{reg_get, bind_params, eval_def, eval_segs};
use crate::context::{EvalContext, fresh_ctx, push_spec, default_max_depth, params_view};
use crate::errors::{EvalError, EvalErrorModel, ParseError};
use crate::types::{Phrase, PhraseId, PhraseModel, Value, ValueModel, fnv1a_64};
use crate::transforms::TransformRegistry;
use crate::template_cache::{TemplateCache, cache_after, template_error_name};
use crate::parser::template::template_result;
use crate::parser::file::{parse_file, file_result};
use crate::evaluator::{eval_template, eval_phrase_def, values_view, outcome_phrase, bind_params_exec};
use crate::text::{str_eq, to_string, push_str, int_decimal};
use std::collections::HashMap;

verus! {

broadcast use vstd::std_specs::hash::group_hash_axioms;

/// The contents of a registry: definitions (one per name), ids with the
/// names they were computed from, and cached templates by their source text.
pub struct RegistryModel {
    pub defs: Seq<PhraseDefinitionModel>,
    pub ids: Map<u64, Seq<char>>,
    pub cache: Seq<(Seq<char>, Seq<SegmentModel>)>,
}

pub open spec fn ids_view(m: Map<u64, String>) -> Map<u64, Seq<char>> {
    m.map_values(|n: String| n@)
}

/// The id of a phrase name: the 64-bit FNV-1a hash of its UTF-8 bytes.
pub open spec fn name_hash(name: Seq<char>) -> u64 {
    fnv1a_64(vstd::utf8::encode_utf8(name))
}

/// Index of the first definition named `name`.
pub open spec fn def_index(defs: Seq<PhraseDefinitionModel>, name: Seq<char>) -> Option<int>
    decreases defs.len(),
{
    if defs.len() == 0 {
        None
    } else if defs[0].name == name {
        Some(0)
    } else {
        match def_index(defs.drop_first(), name) {
            Some(i) => Some(i + 1),
            None => None,
        }
    }
}

/// A definition stored by name: it replaces the one with its name, or is
/// added at the end.
pub open spec fn defs_insert(defs: Seq<PhraseDefinitionModel>, d: PhraseDefinitionModel) -> Seq<PhraseDefinitionModel> {
    match def_index(defs, d.name) {
        Some(i) => defs.update(i, d),
        None => defs.push(d),
    }
}

/// The name registered for an id.
pub open spec fn id_name(ids: Map<u64, Seq<char>>, id: u64) -> Option<Seq<char>> {
    if ids.contains_key(id) {
        Some(ids[id])
    } else {
        None
    }
}

/// The names of definitions, in order.
pub open spec fn def_names(defs: Seq<PhraseDefinitionModel>) -> Seq<Seq<char>>
    decreases defs.len(),
{
    if defs.len() == 0 {
        seq![]
    } else {
        def_names(defs.drop_last()).push(defs.last().name)
    }
}

/// The message of a hash collision between two names.
pub open spec fn collision_name(existing: Seq<char>, name: Seq<char>) -> Seq<char> {
    "hash collision: '"@ + existing + "' and '"@ + name + "' produce same hash"@
}

/// What storing a definition does: where its id is already registered for
/// another name, the error names that name; else the definition is stored
/// by name and its id registered.
pub open spec fn insert_spec(m: RegistryModel, d: PhraseDefinitionModel) -> Result<RegistryModel, Seq<char>> {
    let h = name_hash(d.name);
    match id_name(m.ids, h) {
        Some(n) => if n != d.name {
            Err(n)
        } else {
            Ok(RegistryModel { defs: defs_insert(m.defs, d), ..m })
        },
        None => Ok(RegistryModel { defs: defs_insert(m.defs, d), ids: m.ids.insert(h, d.name), ..m }),
    }
}

/// Definitions stored in order until the first collision: the registry
/// after them, and the colliding pair of names if there was one.
pub open spec fn insert_many(m: RegistryModel, ds: Seq<PhraseDefinitionModel>) -> (RegistryModel, Option<(Seq<char>, Seq<char>)>)
    decreases ds.len(),
{
    if ds.len() == 0 {
        (m, None)
    } else {
        let (m1, e) = insert_many(m, ds.drop_last());
        if e is Some {
            (m1, e)
        } else {
            match insert_spec(m1, ds.last()) {
                Ok(m2) => (m2, None),
                Err(n) => (m1, Some((n, ds.last().name))),
            }
        }
    }
}

/// The message with which loading reports a collision.
pub open spec fn load_collision_message(existing: Seq<char>, name: Seq<char>) -> Seq<char> {
    "phrase not found: '"@ + collision_name(existing, name) + "'"@
}

/// What calling a phrase by name gives: the definition evaluated with its
/// parameters bound to the arguments, its name on the call stack.
pub open spec fn call_spec(defs: Seq<PhraseDefinitionModel>, name: Seq<char>, args: Seq<ValueModel>, sc: Option<Seq<char>>, lang: Seq<char>) -> Result<PhraseModel, EvalErrorModel> {
    match reg_get(defs, name) {
        None => Err(EvalErrorModel::PhraseNotFound(name)),
        Some(d) => if d.parameters.len() != args.len() {
            Err(EvalErrorModel::ArgumentCount { phrase: name, expected: d.parameters.len(), got: args.len() })
        } else {
            match push_spec(fresh_ctx(bind_params(d.parameters, args), default_max_depth(), sc, 0), name) {
                Err(e) => Err(e),
                Ok(c) => eval_def(defs, d, c, lang),
            }
        },
    }
}

/// What calling a phrase by id gives.
pub open spec fn call_by_id_spec(m: RegistryModel, id: u64, args: Seq<ValueModel>, lang: Seq<char>) -> Result<PhraseModel, EvalErrorModel> {
    match id_name(m.ids, id) {
        None => Err(EvalErrorModel::PhraseNotFoundById(id)),
        Some(n) => call_spec(m.defs, n, args, None, lang),
    }
}

/// What evaluating a template string gives: its parse error, or its text
/// evaluated with the parameters and string context, as a phrase without
/// variants or tags.
pub open spec fn eval_str_spec(defs: Seq<PhraseDefinitionModel>, s: Seq<char>, params: Seq<(Seq<char>, ValueModel)>, sc: Option<Seq<char>>, lang: Seq<char>) -> Result<PhraseModel, EvalErrorModel> {
    match template_result(s) {
        Err((l, c, msg)) => Err(EvalErrorModel::PhraseNotFound(template_error_name(l, c, msg))),
        Ok(t) => match eval_segs(defs, t, fresh_ctx(params, default_max_depth(), sc, 0), lang) {
            Err(e) => Err(e),
            Ok(text) => Ok(PhraseModel { text, variants: seq![], tags: seq![] }),
        },
    }
}

/// A registry of phrase definitions, looked up by name or by id.
pub struct PhraseRegistry {
    phrases: Vec<PhraseDefinition>,
    id_to_name: HashMap<u64, String>,
    template_cache: TemplateCache,
}

impl View for PhraseRegistry {
    type V = RegistryModel;

    closed spec fn view(&self) -> RegistryModel {
        RegistryModel {
            defs: definitions_view(self.phrases@),
            ids: ids_view(self.id_to_name@),
            cache: self.template_cache@,
        }
    }
}

/// The id table agrees with the definitions: each entry's id is the hash of
/// its name, which names a stored definition, and each stored definition's
/// name is what the hash of that name is registered for.
pub open spec fn ids_consistent(m: RegistryModel) -> bool {
    &&& forall|id: u64|
        #[trigger] m.ids.contains_key(id) ==> id == name_hash(m.ids[id]) && reg_get(m.defs, m.ids[id])
            is Some
    &&& forall|n: Seq<char>| #[trigger] reg_get(m.defs, n) is Some ==> id_name(m.ids, name_hash(n)) == Some(n)
}

/// Storing a definition keeps the id table in agreement with the
/// definitions.
proof fn lemma_insert_consistent(m: RegistryModel, d: PhraseDefinitionModel)
    requires
        ids_consistent(m),
        insert_spec(m, d) is Ok,
    ensures
        ids_consistent(insert_spec(m, d)->Ok_0),
{
    let m2 = insert_spec(m, d)->Ok_0;
    assert forall|id: u64| #[trigger] m2.ids.contains_key(id) implies id == name_hash(m2.ids[id]) && reg_get(
        m2.defs,
        m2.ids[id],
    ) is Some by {
        lemma_defs_insert(m.defs, d, m2.ids[id]);
    }
    assert forall|n: Seq<char>| #[trigger] reg_get(m2.defs, n) is Some implies id_name(m2.ids, name_hash(n)) == Some(n) by {
        lemma_defs_insert(m.defs, d, n);
    }
}

pub(crate) proof fn lemma_defs_insert(defs: Seq<PhraseDefinitionModel>, d: PhraseDefinitionModel, n: Seq<char>)
    ensures
        reg_get(defs_insert(defs, d), n) == if n == d.name {
            Some(d)
        } else {
            reg_get(defs, n)
        },
    decreases defs.len(),
{
    if defs.len() == 0 {
        assert(defs_insert(defs, d) =~= seq![d]);
        assert(seq![d].drop_first() =~= Seq::<PhraseDefinitionModel>::empty());
        assert(reg_get(Seq::<PhraseDefinitionModel>::empty(), n) is None);
    } else if defs[0].name == d.name {
        assert(defs_insert(defs, d)[0] == d);
        if n != d.name {
            assert(defs_insert(defs, d).drop_first() =~= defs.drop_first());
        }
    } else {
        lemma_defs_insert(defs.drop_first(), d, n);
        match def_index(defs.drop_first(), d.name) {
            Some(j) => {
                lemma_def_index_range(defs.drop_first(), d.name);
                assert(def_index(defs, d.name) == Some(j + 1));
                assert(defs.update(j + 1, d).drop_first() =~= defs.drop_first().update(j, d));
                assert(defs_insert(defs, d)[0] == defs[0]);
            },
            None => {
                assert(def_index(defs, d.name) is None);
                assert(defs.push(d).drop_first() =~= defs.drop_first().push(d));
                assert(defs_insert(defs, d)[0] == defs[0]);
            },
        }
    }
}

proof fn lemma_load_step(ds: Seq<PhraseDefinitionModel>, k: int, before: Seq<PhraseDefinitionModel>, after: Seq<PhraseDefinitionModel>)
    requires
        0 <= k < ds.len(),
        before == ds.skip(k),
        after == before.remove(0),
    ensures
        after == ds.skip(k + 1),
        before[0] == ds[k],
        ds.take(k + 1).drop_last() == ds.take(k),
        ds.take(k + 1).last() == ds[k],
{
    assert(after =~= ds.skip(k + 1));
    assert(ds.take(k + 1).drop_last() =~= ds.take(k));
}

proof fn lemma_load_ok(m0: RegistryModel, ds: Seq<PhraseDefinitionModel>, k: int, mk: RegistryModel, m1: RegistryModel)
    requires
        0 <= k < ds.len(),
        insert_many(m0, ds.take(k)) == (mk, None::<(Seq<char>, Seq<char>)>),
        insert_spec(mk, ds[k]) == Ok::<RegistryModel, Seq<char>>(m1),
    ensures
        insert_many(m0, ds.take(k + 1)) == (m1, None::<(Seq<char>, Seq<char>)>),
{
    assert(ds.take(k + 1).drop_last() =~= ds.take(k));
    assert(ds.take(k + 1).last() == ds[k]);
}

proof fn lemma_load_error(m0: RegistryModel, ds: Seq<PhraseDefinitionModel>, k: int, mk: RegistryModel)
    requires
        0 <= k < ds.len(),
        insert_many(m0, ds.take(k)) == (mk, None::<(Seq<char>, Seq<char>)>),
        insert_spec(mk, ds[k]) is Err,
    ensures
        insert_many(m0, ds) == (mk, Some((insert_spec(mk, ds[k])->Err_0, ds[k].name))),
{
    assert(ds.take(k + 1).drop_last() =~= ds.take(k));
    assert(ds.take(k + 1).last() == ds[k]);
    lemma_insert_many_stop(m0, ds, k + 1);
}

/// The message of a `PhraseNotFound` error.
pub(crate) fn not_found_message(e: EvalError) -> (r: String)
    requires
        e@ is PhraseNotFound,
    ensures
        r@ == "phrase not found: '"@ + e@->PhraseNotFound_0 + "'"@,
{
    match e {
        EvalError::PhraseNotFound { name } => {
            let mut r = to_string("phrase not found: '");
            push_str(&mut r, name.as_str());
            push_str(&mut r, "'");
            r
        },
        _ => to_string(""),
    }
}

/// The first `k` definitions stored: what `insert_many` gives for them.
proof fn lemma_insert_many_stop(m: RegistryModel, ds: Seq<PhraseDefinitionModel>, k: int)
    requires
        0 < k <= ds.len(),
        insert_many(m, ds.take(k)).1 is Some,
    ensures
        insert_many(m, ds) == insert_many(m, ds.take(k)),
    decreases ds.len() - k,
{
    if k < ds.len() {
        assert(ds.take(k + 1).drop_last() =~= ds.take(k));
        lemma_insert_many_stop(m, ds, k + 1);
    } else {
        assert(ds.take(k) =~= ds);
    }
}

impl PhraseRegistry {
    #[verifier::type_invariant]
    spec fn consistent(&self) -> bool {
        ids_consistent(self@)
    }

    /// An empty registry.
    pub fn new() -> (r: PhraseRegistry)
        ensures
            r@.defs.len() == 0,
            r@.ids == Map::<u64, Seq<char>>::empty(),
            r@.cache.len() == 0,
    {
        let r = PhraseRegistry { phrases: Vec::new(), id_to_name: HashMap::new(), template_cache: TemplateCache::new() };
        assert(r@.defs =~= seq![]);
        assert(r@.ids =~= Map::<u64, Seq<char>>::empty());
        assert(r@.cache =~= seq![]);
        r
    }

    /// The definition named `name`.
    pub fn get(&self, name: &str) -> (r: Option<&PhraseDefinition>)
        ensures
            match r {
                Some(d) => reg_get(self@.defs, name@) == Some(d@),
                None => reg_get(self@.defs, name@) is None,
            },
    {
        let ghost defs = self@.defs;
        let mut i: usize = 0;
        assert(defs.skip(0) =~= defs);
        while i < self.phrases.len()
            invariant
                i <= self.phrases.len(),
                defs == definitions_view(self.phrases@),
                reg_get(defs, name@) == reg_get(defs.skip(i as int), name@),
            decreases self.phrases.len() - i,
        {
            let ghost rest = defs.skip(i as int);
            assert(rest[0] == self.phrases@[i as int]@);
            if str_eq(self.phrases[i].name.as_str(), name) {
                return Some(&self.phrases[i]);
            }
            assert(rest.drop_first() =~= defs.skip(i as int + 1));
            i = i + 1;
        }
        None
    }

    /// Index of the definition named `name`.
    fn def_position(&self, name: &str) -> (r: Option<usize>)
        ensures
            match r {
                Some(i) => def_index(self@.defs, name@) == Some(i as int) && i < self@.defs.len(),
                None => def_index(self@.defs, name@) is None,
            },
    {
        let ghost defs = self@.defs;
        let mut i: usize = 0;
        assert(defs.skip(0) =~= defs);
        while i < self.phrases.len()
            invariant
                i <= self.phrases.len(),
                defs == definitions_view(self.phrases@),
                forall|k: int| #![auto] 0 <= k < i ==> defs[k].name != name@,
            decreases self.phrases.len() - i,
        {
            assert(defs[i as int] == self.phrases@[i as int]@);
            if str_eq(self.phrases[i].name.as_str(), name) {
                proof {
                    lemma_def_index_first(defs, name@, i as int);
                }
                return Some(i);
            }
            i = i + 1;
        }
        proof {
            lemma_def_index_absent(defs, name@);
        }
        None
    }

    /// The name registered for the id `id`.
    fn id_lookup(&self, id: u64) -> (r: Option<&String>)
        ensures
            match r {
                Some(n) => id_name(self@.ids, id) == Some(n@),
                None => id_name(self@.ids, id) is None,
            },
    {
        self.id_to_name.get(&id)
    }

    /// The definition whose name has the id `id`.
    pub fn get_by_id(&self, id: u64) -> (r: Option<&PhraseDefinition>)
        ensures
            match r {
                Some(d) => id_name(self@.ids, id) matches Some(n) && reg_get(self@.defs, n) == Some(d@),
                None => match id_name(self@.ids, id) {
                    Some(n) => reg_get(self@.defs, n) is None,
                    None => true,
                },
            },
    {
        match self.id_lookup(id) {
            Some(n) => self.get(n.as_str()),
            None => None,
        }
    }

    /// Stores a definition by name and registers the id of its name. Fails,
    /// storing nothing, where the id is already registered for another name.
    pub fn insert(&mut self, def: PhraseDefinition) -> (r: Result<(), EvalError>)
        ensures
            match insert_spec(old(self)@, def@) {
                Ok(m) => r is Ok && final(self)@ == m,
                Err(n) => r matches Err(e) && e@ == EvalErrorModel::PhraseNotFound(collision_name(n, def@.name))
                    && final(self)@ == old(self)@,
            },
    {
        proof {
            use_type_invariant(&*self);
        }
        let ghost m0 = self@;
        let ghost dm = def@;
        let hash = PhraseId::from_name(def.name.as_str()).as_u64();
        assert(hash == name_hash(def@.name));
        let is_new: bool = match self.id_lookup(hash) {
            Some(existing) => {
                if !str_eq(existing.as_str(), def.name.as_str()) {
                    let mut msg = to_string("hash collision: '");
                    push_str(&mut msg, existing.as_str());
                    push_str(&mut msg, "' and '");
                    push_str(&mut msg, def.name.as_str());
                    push_str(&mut msg, "' produce same hash");
                    return Err(EvalError::PhraseNotFound { name: msg });
                }
                false
            },
            None => true,
        };
        let dpos = self.def_position(def.name.as_str());
        proof {
            lemma_insert_consistent(m0, dm);
        }
        let mut old_reg = PhraseRegistry::new();
        std::mem::swap(&mut old_reg, self);
        let PhraseRegistry { phrases, id_to_name, template_cache } = old_reg;
        let mut phrases = phrases;
        let mut ids = id_to_name;
        assert(ids_view(ids@) == m0.ids && definitions_view(phrases@) == m0.defs);
        if is_new {
            let name = crate::text::copy_string(&def.name);
            let _ = ids.insert(hash, name);
            assert(ids_view(ids@) =~= m0.ids.insert(hash, dm.name));
        }
        match dpos {
            Some(i) => {
                phrases.set(i, def);
                assert(definitions_view(phrases@) =~= m0.defs.update(i as int, dm));
            },
            None => {
                phrases.push(def);
                assert(definitions_view(phrases@) =~= m0.defs.push(dm));
            },
        }
        *self = PhraseRegistry { phrases, id_to_name: ids, template_cache };
        Ok(())
    }

    /// Stores definitions in order, stopping at the first id collision.
    pub(crate) fn insert_all(&mut self, definitions: Vec<PhraseDefinition>) -> (r: Result<(), EvalError>)
        ensures
            final(self)@ == insert_many(old(self)@, definitions_view(definitions@)).0,
            match insert_many(old(self)@, definitions_view(definitions@)).1 {
                None => r is Ok,
                Some((a, b)) => r matches Err(e) && e@ == EvalErrorModel::PhraseNotFound(collision_name(a, b)),
            },
    {
        let ghost m0 = self@;
        let ghost ds = definitions_view(definitions@);
        let count = definitions.len();
        let mut rest = definitions;
        let mut k: usize = 0;
        assert(ds.take(0) =~= seq![]);
        assert(ds.skip(0) =~= ds);
        while rest.len() > 0
            invariant
                k + rest.len() == count,
                count == ds.len(),
                m0 == old(self)@,
                ds == definitions_view(definitions@),
                definitions_view(rest@) == ds.skip(k as int),
                insert_many(m0, ds.take(k as int)) == (self@, None::<(Seq<char>, Seq<char>)>),
            decreases rest.len(),
        {
            let ghost before = rest@;
            let d = rest.remove(0);
            assert(definitions_view(rest@) =~= definitions_view(before).remove(0));
            proof {
                lemma_load_step(ds, k as int, definitions_view(before), definitions_view(rest@));
            }
            assert(d@ == definitions_view(before)[0]);
            let ghost mk = self@;
            match self.insert(d) {
                Ok(()) => {
                    proof {
                        lemma_load_ok(m0, ds, k as int, mk, self@);
                    }
                },
                Err(e) => {
                    proof {
                        lemma_load_error(m0, ds, k as int, mk);
                    }
                    return Err(e);
                },
            }
            k = k + 1;
        }
        assert(ds.take(k as int) =~= ds);
        Ok(())
    }

    /// Loads the definitions of a source text in `.rlf` format, stopping at
    /// the first id collision; returns how many definitions it holds.
    pub fn load_phrases(&mut self, content: &str) -> (r: Result<usize, ParseError>)
        ensures
            match file_result(content@) {
                Err((l, c, msg)) => r matches Err(ParseError::Syntax { line, column, message })
                    && line == l && column == c && message@ == msg && final(self)@ == old(self)@,
                Ok(ds) => {
                    let (m, e) = insert_many(old(self)@, ds);
                    &&& final(self)@ == m
                    &&& match e {
                        None => r == Ok::<usize, ParseError>(ds.len() as usize),
                        Some((a, b)) => r matches Err(ParseError::Syntax { line, column, message })
                            && line == 0 && column == 0 && message@ == load_collision_message(a, b),
                    }
                },
            },
    {
        let definitions = match parse_file(content) {
            Ok(d) => d,
            Err(e) => return Err(e),
        };
        let count = definitions.len();
        match self.insert_all(definitions) {
            Ok(()) => Ok(count),
            Err(e) => {
                let message = not_found_message(e);
                Err(ParseError::Syntax { line: 0, column: 0, message })
            },
        }
    }

    /// The stored definitions, in the order their names were first stored.
    pub fn definitions(&self) -> (r: &[PhraseDefinition])
        ensures
            definitions_view(r@) == self@.defs,
    {
        self.phrases.as_slice()
    }

    /// The names of the stored definitions.
    pub fn phrase_names(&self) -> (r: Vec<String>)
        ensures
            strings_view(r@) == def_names(self@.defs),
    {
        let ghost defs = self@.defs;
        let mut out: Vec<String> = Vec::new();
        let mut i: usize = 0;
        while i < self.phrases.len()
            invariant
                i <= self.phrases.len(),
                defs == definitions_view(self.phrases@),
                strings_view(out@) == def_names(defs.take(i as int)),
            decreases self.phrases.len() - i,
        {
            let ghost before = strings_view(out@);
            out.push(crate::text::copy_string(&self.phrases[i].name));
            assert(defs.take(i as int + 1).drop_last() =~= defs.take(i as int));
            assert(strings_view(out@) =~= before.push(defs[i as int].name));
            i = i + 1;
        }
        assert(defs.take(i as int) =~= defs);
        out
    }

    /// Evaluates a template string with the given parameters, caching its
    /// parse.
    ///
    /// Terms may reference one another at most 64 deep, and contexts (each
    /// phrase call and each `:from` variant opens one) nest at most 256
    /// deep; evaluation that would go deeper, such as a phrase that calls
    /// itself without end, gives `EvalError::MaxDepthExceeded`.
    pub fn eval_str(&mut self, template_str: &str, lang: &str, params: Vec<(String, Value)>) -> (r: Result<Phrase, EvalError>)
        ensures
            outcome_phrase(r) == eval_str_spec(old(self)@.defs, template_str@, params_view(params@), None, lang@),
            final(self)@.defs == old(self)@.defs,
            final(self)@.ids == old(self)@.ids,
            final(self)@.cache == cache_after(old(self)@.cache, template_str@),
    {
        proof {
            use_type_invariant(&*self);
        }
        let mut cache = TemplateCache::new();
        std::mem::swap(&mut cache, &mut self.template_cache);
        let fetched = cache.fetch(template_str);
        self.template_cache = cache;
        let i = match fetched {
            Ok(i) => i,
            Err(e) => return Err(e),
        };
        let transform_registry = TransformRegistry::new();
        let reg: &PhraseRegistry = &*self;
        let mut ctx = EvalContext::new(&params);
        let text = match eval_template(reg.template_cache.template(i), &mut ctx, reg, &transform_registry, lang) {
            Ok(t) => t,
            Err(e) => return Err(e),
        };
        let p = Phrase::from_text(text);
        assert(p@.variants =~= seq![]);
        assert(p@.tags =~= seq![]);
        Ok(p)
    }

    /// Empties the template cache.
    pub fn clear_template_cache(&mut self)
        ensures
            final(self)@.defs == old(self)@.defs,
            final(self)@.ids == old(self)@.ids,
            final(self)@.cache.len() == 0,
    {
        proof {
            use_type_invariant(&*self);
        }
        self.template_cache = TemplateCache::new();
    }

    /// How many templates are cached.
    pub fn template_cache_len(&self) -> (r: usize)
        ensures
            r == self@.cache.len(),
    {
        self.template_cache.len()
    }

    /// Calls a phrase by name with positional arguments.
    ///
    /// Terms may reference one another at most 64 deep, and contexts (each
    /// phrase call and each `:from` variant opens one) nest at most 256
    /// deep; evaluation that would go deeper, such as a phrase that calls
    /// itself without end, gives `EvalError::MaxDepthExceeded`.
    pub fn call_phrase(&self, lang: &str, name: &str, args: &[Value]) -> (r: Result<Phrase, EvalError>)
        ensures
            outcome_phrase(r) == call_spec(self@.defs, name@, values_view(args@), None, lang@),
    {
        let def = match self.get(name) {
            Some(d) => d,
            None => return Err(EvalError::PhraseNotFound { name: to_string(name) }),
        };
        if def.parameters.len() != args.len() {
            return Err(EvalError::ArgumentCount { phrase: to_string(name), expected: def.parameters.len(), got: args.len() });
        }
        let vals = duplicate_values(args);
        let params = bind_params_exec(&def.parameters, vals);
        let transform_registry = TransformRegistry::new();
        let mut ctx = EvalContext::new(&params);
        match ctx.push_call(name) {
            Ok(()) => {},
            Err(e) => return Err(e),
        }
        let result = match eval_phrase_def(def, &mut ctx, self, &transform_registry, lang) {
            Ok(p) => p,
            Err(e) => return Err(e),
        };
        ctx.pop_call();
        Ok(result)
    }

    /// Evaluates a phrase without parameters.
    ///
    /// Terms may reference one another at most 64 deep, and contexts (each
    /// phrase call and each `:from` variant opens one) nest at most 256
    /// deep; evaluation that would go deeper, such as a phrase that calls
    /// itself without end, gives `EvalError::MaxDepthExceeded`.
    pub fn get_phrase(&self, lang: &str, name: &str) -> (r: Result<Phrase, EvalError>)
        ensures
            outcome_phrase(r) == call_spec(self@.defs, name@, seq![], None, lang@),
    {
        let def = match self.get(name) {
            Some(d) => d,
            None => return Err(EvalError::PhraseNotFound { name: to_string(name) }),
        };
        if def.parameters.len() != 0 {
            return Err(EvalError::ArgumentCount { phrase: to_string(name), expected: def.parameters.len(), got: 0 });
        }
        let params: Vec<(String, Value)> = Vec::new();
        assert(params_view(params@) =~= bind_params(def@.parameters, seq![]));
        let transform_registry = TransformRegistry::new();
        let mut ctx = EvalContext::new(&params);
        match ctx.push_call(name) {
            Ok(()) => {},
            Err(e) => return Err(e),
        }
        let result = match eval_phrase_def(def, &mut ctx, self, &transform_registry, lang) {
            Ok(p) => p,
            Err(e) => return Err(e),
        };
        ctx.pop_call();
        Ok(result)
    }

    /// Calls a phrase by the id of its name.
    ///
    /// Terms may reference one another at most 64 deep, and contexts (each
    /// phrase call and each `:from` variant opens one) nest at most 256
    /// deep; evaluation that would go deeper, such as a phrase that calls
    /// itself without end, gives `EvalError::MaxDepthExceeded`.
    pub fn call_phrase_by_id(&self, id: u64, lang: &str, args: &[Value]) -> (r: Result<Phrase, EvalError>)
        ensures
            outcome_phrase(r) == call_by_id_spec(self@, id, values_view(args@), lang@),
    {
        match self.id_lookup(id) {
            Some(n) => self.call_phrase(lang, n.as_str(), args),
            None => Err(EvalError::PhraseNotFoundById { id }),
        }
    }

    /// Evaluates a phrase without parameters by the id of its name.
    ///
    /// Terms may reference one another at most 64 deep, and contexts (each
    /// phrase call and each `:from` variant opens one) nest at most 256
    /// deep; evaluation that would go deeper, such as a phrase that calls
    /// itself without end, gives `EvalError::MaxDepthExceeded`.
    pub fn get_phrase_by_id(&self, id: u64, lang: &str) -> (r: Result<Phrase, EvalError>)
        ensures
            outcome_phrase(r) == call_by_id_spec(self@, id, seq![], lang@),
    {
        match self.id_lookup(id) {
            Some(n) => self.get_phrase(lang, n.as_str()),
            None => Err(EvalError::PhraseNotFoundById { id }),
        }
    }

    /// The number of parameters of the phrase with the id `id`; 0 where
    /// there is none.
    pub fn phrase_parameter_count(&self, id: u64) -> (r: usize)
        ensures
            r == match id_name(self@.ids, id) {
                Some(n) => match reg_get(self@.defs, n) {
                    Some(d) => d.parameters.len(),
                    None => 0,
                },
                None => 0,
            },
    {
        match self.id_lookup(id) {
            Some(n) => match self.get(n.as_str()) {
                Some(d) => d.parameters.len(),
                None => 0,
            },
            None => 0,
        }
    }

    /// The name of the stored phrase whose name has the id `id`.
    pub fn name_for_id(&self, id: u64) -> (r: Option<&str>)
        ensures
            match r {
                Some(n) => id_name(self@.ids, id) == Some(n@) && name_hash(n@) == id && reg_get(
                    self@.defs,
                    n@,
                ) is Some,
                None => id_name(self@.ids, id) is None && forall|n: Seq<char>| #[trigger]
                    reg_get(self@.defs, n) is Some ==> name_hash(n) != id,
            },
    {
        proof {
            use_type_invariant(self);
        }
        match self.id_lookup(id) {
            Some(n) => Some(n.as_str()),
            None => None,
        }
    }
}

impl Default for PhraseRegistry {
    /// An empty registry.
    fn default() -> (r: PhraseRegistry)
        ensures
            r@.defs.len() == 0,
            r@.ids == Map::<u64, Seq<char>>::empty(),
            r@.cache.len() == 0,
    {
        PhraseRegistry::new()
    }
}

/// Copies of the given values.
pub(crate) fn duplicate_values(args: &[Value]) -> (r: Vec<Value>)
    ensures
        values_view(r@) == values_view(args@),
{
    let mut out: Vec<Value> = Vec::new();
    let mut i: usize = 0;
    while i < args.len()
        invariant
            i <= args.len(),
            values_view(out@) == values_view(args@).take(i as int),
        decreases args.len() - i,
    {
        let ghost before = values_view(out@);
        let v = args[i].duplicate();
        assert(v@ == values_view(args@)[i as int]);
        out.push(v);
        assert(values_view(out@) =~= before.push(v@));
        assert(values_view(out@) =~= values_view(args@).take(i as int + 1));
        i = i + 1;
    }
    assert(values_view(args@).take(i as int) =~= values_view(args@));
    out
}

proof fn lemma_def_index_range(defs: Seq<PhraseDefinitionModel>, name: Seq<char>)
    ensures
        def_index(defs, name) matches Some(i) ==> 0 <= i < defs.len() && defs[i].name == name,
    decreases defs.len(),
{
    if defs.len() > 0 && defs[0].name != name {
        lemma_def_index_range(defs.drop_first(), name);
    }
}

proof fn lemma_def_index_first(defs: Seq<PhraseDefinitionModel>, name: Seq<char>, i: int)
    requires
        0 <= i < defs.len(),
        defs[i].name == name,
        forall|k: int| #![auto] 0 <= k < i ==> defs[k].name != name,
    ensures
        def_index(defs, name) == Some(i),
    decreases i,
{
    if i > 0 {
        lemma_def_index_first(defs.drop_first(), name, i - 1);
    }
}

proof fn lemma_def_index_absent(defs: Seq<PhraseDefinitionModel>, name: Seq<char>)
    requires
        forall|k: int| #![auto] 0 <= k < defs.len() ==> defs[k].name != name,
    ensures
        def_index(defs, name) is None,
    decreases defs.len(),
{
    if defs.len() > 0 {
        lemma_def_index_absent(defs.drop_first(), name);
    }
}

} // verus!
