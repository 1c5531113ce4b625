//! The locale: the current language and string context, one registry of
//! translations per language, and phrase evaluation in the current language.
//! Reading translation files is left to the caller, which hands the content
//! in.
use vstd::prelude::*;
use crate::ast::{PhraseDefinitionModel, SegmentModel, PhraseDefinition, definitions_view, strings_view};
use crate::semantics::{key_index, reg_get, sort_strings, eval_segs};
use crate::context::{EvalContext, params_view};
use crate::errors::{EvalError, EvalErrorModel, LoadError, LoadWarning, LoadWarningModel, ParseError, warnings_model};
use crate::types::{Phrase, PhraseId, PhraseModel, Value, ValueModel};
use crate::transforms::TransformRegistry;
use crate::template_cache::{TemplateCache, cache_after};
use crate::parser::file::{parse_file, file_result};
use crate::registry::{
    PhraseRegistry, RegistryModel, call_spec, call_by_id_spec, eval_str_spec, id_name, insert_many, def_names,
    name_hash,
    load_collision_message, not_found_message, duplicate_values,
};
use crate::evaluator::{
    eval_template, eval_phrase_def, values_view, outcome_phrase, bind_params_exec, sorted,
    lemma_key_index_at, lemma_key_index_none,
};
use crate::text::{str_eq, to_string, push_str, copy_string};

verus! {

/// The contents of a locale.
pub struct LocaleModel {
    pub language: Seq<char>,
    pub string_context: Option<Seq<char>>,
    pub registries: Seq<(Seq<char>, RegistryModel)>,
    pub paths: Seq<(Seq<char>, Seq<char>)>,
    pub cache: Seq<(Seq<char>, Seq<SegmentModel>)>,
}

/// Entries keyed by strings, by their views.
pub open spec fn keyed_view<V: View>(v: Seq<(String, V)>) -> Seq<(Seq<char>, V::V)> {
    v.map_values(|e: (String, V)| (e.0@, e.1@))
}

/// The value stored under a key.
pub open spec fn entry_of<V>(s: Seq<(Seq<char>, V)>, k: Seq<char>) -> Option<V> {
    match key_index(s, k) {
        Some(i) => Some(s[i].1),
        None => None,
    }
}

/// The entries without those stored under a key.
pub open spec fn without<V>(s: Seq<(Seq<char>, V)>, k: Seq<char>) -> Seq<(Seq<char>, V)>
    decreases s.len(),
{
    if s.len() == 0 {
        s
    } else if s.last().0 == k {
        without(s.drop_last(), k)
    } else {
        without(s.drop_last(), k).push(s.last())
    }
}

/// The entries with a value stored under a key: replacing the one there, or
/// added at the end.
pub open spec fn with_entry<V>(s: Seq<(Seq<char>, V)>, k: Seq<char>, v: V) -> Seq<(Seq<char>, V)> {
    match key_index(s, k) {
        Some(i) => s.update(i, (k, v)),
        None => s.push((k, v)),
    }
}

/// A registry with nothing in it.
pub open spec fn empty_registry() -> RegistryModel {
    RegistryModel { defs: seq![], ids: Map::empty(), cache: seq![] }
}

/// The name under which errors of a source text loaded from a string are
/// reported.
pub open spec fn string_source(language: Seq<char>) -> Seq<char> {
    "<"@ + language + ">"@
}

/// What loading a source text for a language does to registries that hold
/// none for it: where the text parses, a registry for the language is added
/// that holds its definitions, up to the first id collision.
pub open spec fn registries_after_load(rs: Seq<(Seq<char>, RegistryModel)>, language: Seq<char>, content: Seq<char>) -> Seq<(Seq<char>, RegistryModel)> {
    match file_result(content) {
        Err(_) => rs,
        Ok(ds) => rs.push((language, insert_many(empty_registry(), ds).0)),
    }
}

/// The result of loading a source text, errors reported under `source`:
/// the number of definitions, or the parse error, or the first collision.
pub open spec fn load_result_ok(content: Seq<char>) -> Option<nat> {
    match file_result(content) {
        Err(_) => None,
        Ok(ds) => if insert_many(empty_registry(), ds).1 is None {
            Some(ds.len())
        } else {
            None
        },
    }
}

/// Whether a load error is the one that loading the source text gives.
pub open spec fn load_error_matches(e: LoadError, source: Seq<char>, content: Seq<char>) -> bool {
    match e {
        LoadError::Parse { path, line, column, message } => path@ == source && match file_result(content) {
            Err((l, c, msg)) => line == l && column == c && message@ == msg,
            Ok(ds) => match insert_many(empty_registry(), ds).1 {
                Some((a, b)) => line == 0 && column == 0 && message@ == load_collision_message(a, b),
                None => false,
            },
        },
        LoadError::NoPathForReload { .. } => false,
    }
}

/// What calling a phrase of the current language gives.
pub open spec fn locale_call_spec(m: LocaleModel, name: Seq<char>, args: Seq<ValueModel>) -> Result<PhraseModel, EvalErrorModel> {
    match entry_of(m.registries, m.language) {
        None => Err(EvalErrorModel::PhraseNotFound(name)),
        Some(r) => call_spec(r.defs, name, args, m.string_context, m.language),
    }
}

/// What calling a phrase of the current language by id gives.
pub open spec fn locale_call_by_id_spec(m: LocaleModel, id: u64, args: Seq<ValueModel>) -> Result<PhraseModel, EvalErrorModel> {
    match entry_of(m.registries, m.language) {
        None => Err(EvalErrorModel::PhraseNotFoundById(id)),
        Some(r) => match id_name(r.ids, id) {
            None => Err(EvalErrorModel::PhraseNotFoundById(id)),
            Some(n) => call_spec(r.defs, n, args, m.string_context, m.language),
        },
    }
}

/// `n` is the name that the id table gives for `id`: a stored phrase whose
/// name hashes to `id`.
pub open spec fn names_id(reg: RegistryModel, id: u64, n: Seq<char>) -> bool {
    &&& id_name(reg.ids, id) == Some(n)
    &&& name_hash(n) == id
    &&& reg_get(reg.defs, n) is Some
}

/// No stored phrase has a name that hashes to `id`.
pub open spec fn no_name_for(reg: RegistryModel, id: u64) -> bool {
    &&& id_name(reg.ids, id) is None
    &&& forall|n: Seq<char>| #[trigger] reg_get(reg.defs, n) is Some ==> name_hash(n) != id
}

/// The number of parameters of the phrase with an id in the current
/// language; 0 where there is none.
pub open spec fn id_parameter_count(m: LocaleModel, id: u64) -> nat {
    match entry_of(m.registries, m.language) {
        Some(reg) => match id_name(reg.ids, id) {
            Some(n) => match reg_get(reg.defs, n) {
                Some(d) => d.parameters.len(),
                None => 0,
            },
            None => 0,
        },
        None => 0,
    }
}

/// The error of evaluating a template string where no translations are
/// loaded for the language.
pub open spec fn no_translations(language: Seq<char>) -> Seq<char> {
    "no translations loaded for language '"@ + language + "'"@
}

/// The warnings for the target names checked so far: a name that the source
/// lacks is unknown; one whose parameter count differs is reported with
/// both counts.
pub open spec fn validate_names(sdefs: Seq<PhraseDefinitionModel>, tdefs: Seq<PhraseDefinitionModel>, names: Seq<Seq<char>>, target: Seq<char>) -> Seq<LoadWarningModel>
    decreases names.len(),
{
    if names.len() == 0 {
        seq![]
    } else {
        let prev = validate_names(sdefs, tdefs, names.drop_last(), target);
        let n = names.last();
        match reg_get(sdefs, n) {
            None => prev.push(LoadWarningModel::UnknownPhrase { name: n, language: target }),
            Some(sd) => match reg_get(tdefs, n) {
                Some(td) => if sd.parameters.len() != td.parameters.len() {
                    prev.push(
                        LoadWarningModel::ParameterCountMismatch {
                            name: n,
                            language: target,
                            source_count: sd.parameters.len(),
                            translation_count: td.parameters.len(),
                        },
                    )
                } else {
                    prev
                },
                None => prev,
            },
        }
    }
}

/// The warnings of checking a target language against a source language:
/// none where either is not loaded, else one per name of the target (in
/// sorted order) that the source lacks or whose parameter count differs.
pub open spec fn validate_spec(m: LocaleModel, source: Seq<char>, target: Seq<char>) -> Seq<LoadWarningModel> {
    match (entry_of(m.registries, source), entry_of(m.registries, target)) {
        (Some(s), Some(t)) => validate_names(s.defs, t.defs, sort_strings(def_names(t.defs)), target),
        _ => seq![],
    }
}

/// The user-facing handle on translations: language selection, loading, and
/// phrase evaluation.
pub struct Locale {
    language: String,
    string_context: Option<String>,
    registries: Vec<(String, PhraseRegistry)>,
    transforms: TransformRegistry,
    loaded_paths: Vec<(String, String)>,
    template_cache: TemplateCache,
}

impl View for Locale {
    type V = LocaleModel;

    closed spec fn view(&self) -> LocaleModel {
        LocaleModel {
            language: self.language@,
            string_context: match self.string_context {
                Some(s) => Some(s@),
                None => None,
            },
            registries: keyed_view(self.registries@),
            paths: keyed_view(self.loaded_paths@),
            cache: self.template_cache@,
        }
    }
}

impl Locale {
    /// A locale for English, with nothing loaded.
    pub fn new() -> (r: Locale)
        ensures
            r@.language == "en"@,
            r@.string_context is None,
            r@.registries.len() == 0,
            r@.paths.len() == 0,
            r@.cache.len() == 0,
    {
        Locale::with_language("en")
    }

    /// A locale for the given language, with nothing loaded.
    pub fn with_language(language: &str) -> (r: Locale)
        ensures
            r@.language == language@,
            r@.string_context is None,
            r@.registries.len() == 0,
            r@.paths.len() == 0,
            r@.cache.len() == 0,
    {
        let r = Locale {
            language: to_string(language),
            string_context: None,
            registries: Vec::new(),
            transforms: TransformRegistry::new(),
            loaded_paths: Vec::new(),
            template_cache: TemplateCache::new(),
        };
        assert(r@.registries =~= seq![]);
        assert(r@.paths =~= seq![]);
        r
    }

    /// The current language.
    pub fn language(&self) -> (r: &str)
        ensures
            r@ == self@.language,
    {
        self.language.as_str()
    }

    /// Changes the current language.
    pub fn set_language(&mut self, language: &str)
        ensures
            final(self)@ == (LocaleModel { language: language@, ..old(self)@ }),
    {
        self.language = to_string(language);
    }

    /// The string context: the variant key that variant blocks prefer.
    pub fn string_context(&self) -> (r: Option<&str>)
        ensures
            match r {
                Some(s) => self@.string_context == Some(s@),
                None => self@.string_context is None,
            },
    {
        match &self.string_context {
            Some(s) => Some(s.as_str()),
            None => None,
        }
    }

    /// Sets or clears the string context.
    pub fn set_string_context(&mut self, context: Option<&str>)
        ensures
            final(self)@ == (LocaleModel {
                string_context: match context {
                    Some(s) => Some(s@),
                    None => None,
                },
                ..old(self)@
            }),
    {
        self.string_context = match context {
            Some(s) => Some(to_string(s)),
            None => None,
        };
    }

    /// Index of the registry of a language.
    fn registry_position(&self, language: &str) -> (r: Option<usize>)
        ensures
            match r {
                Some(i) => key_index(self@.registries, language@) == Some(i as int) && i < self@.registries.len(),
                None => key_index(self@.registries, language@) is None,
            },
    {
        let ghost rs = self@.registries;
        let mut i: usize = 0;
        while i < self.registries.len()
            invariant
                i <= self.registries.len(),
                rs == keyed_view(self.registries@),
                forall|k: int| 0 <= k < i ==> #[trigger] rs[k].0 != language@,
            decreases self.registries.len() - i,
        {
            assert(rs[i as int].0 == self.registries@[i as int].0@);
            if str_eq(self.registries[i].0.as_str(), language) {
                proof {
                    lemma_key_index_at(rs, language@, i as int);
                }
                return Some(i);
            }
            i = i + 1;
        }
        proof {
            lemma_key_index_none(rs, language@);
        }
        None
    }

    /// Index of the loaded path of a language.
    fn path_position(&self, language: &str) -> (r: Option<usize>)
        ensures
            match r {
                Some(i) => key_index(self@.paths, language@) == Some(i as int) && i < self@.paths.len(),
                None => key_index(self@.paths, language@) is None,
            },
    {
        let ghost ps = self@.paths;
        let mut i: usize = 0;
        while i < self.loaded_paths.len()
            invariant
                i <= self.loaded_paths.len(),
                ps == keyed_view(self.loaded_paths@),
                forall|k: int| 0 <= k < i ==> #[trigger] ps[k].0 != language@,
            decreases self.loaded_paths.len() - i,
        {
            assert(ps[i as int].0 == self.loaded_paths@[i as int].0@);
            if str_eq(self.loaded_paths[i].0.as_str(), language) {
                proof {
                    lemma_key_index_at(ps, language@, i as int);
                }
                return Some(i);
            }
            i = i + 1;
        }
        proof {
            lemma_key_index_none(ps, language@);
        }
        None
    }

    /// The registry of a language.
    pub fn registry_for(&self, language: &str) -> (r: Option<&PhraseRegistry>)
        ensures
            match r {
                Some(reg) => entry_of(self@.registries, language@) == Some(reg@),
                None => entry_of(self@.registries, language@) is None,
            },
    {
        match self.registry_position(language) {
            Some(i) => {
                assert(self@.registries[i as int].1 == self.registries@[i as int].1@);
                Some(&self.registries[i].1)
            },
            None => None,
        }
    }

    /// The registry of the current language.
    pub fn registry(&self) -> (r: Option<&PhraseRegistry>)
        ensures
            match r {
                Some(reg) => entry_of(self@.registries, self@.language) == Some(reg@),
                None => entry_of(self@.registries, self@.language) is None,
            },
    {
        self.registry_for(self.language.as_str())
    }

    /// The transforms.
    pub fn transforms(&self) -> (r: &TransformRegistry) {
        &self.transforms
    }

    /// The transforms, for changing them.
    pub fn transforms_mut(&mut self) -> (r: &mut TransformRegistry)
        ensures
            final(self)@ == old(self)@,
    {
        &mut self.transforms
    }

    /// Drops the registry of a language.
    fn clear_language(&mut self, language: &str)
        ensures
            final(self)@ == (LocaleModel { registries: without(old(self)@.registries, language@), ..old(self)@ }),
    {
        remove_key(&mut self.registries, language);
    }

    /// Parses a source text into a new registry for a language, errors
    /// reported under `source`.
    fn load_content(&mut self, language: &str, content: &str, source: &str) -> (r: Result<usize, LoadError>)
        requires
            key_index(old(self)@.registries, language@) is None,
        ensures
            final(self)@ == (LocaleModel {
                registries: registries_after_load(old(self)@.registries, language@, content@),
                ..old(self)@
            }),
            match r {
                Ok(n) => load_result_ok(content@) == Some(n as nat),
                Err(e) => load_result_ok(content@) is None && load_error_matches(e, source@, content@),
            },
    {
        let definitions = match parse_file(content) {
            Ok(d) => d,
            Err(e) => {
                return match e {
                    ParseError::Syntax { line, column, message } => Err(
                        LoadError::Parse { path: to_string(source), line, column, message },
                    ),
                    ParseError::UnexpectedEof { line, column } => Err(
                        LoadError::Parse {
                            path: to_string(source),
                            line,
                            column,
                            message: to_string("unexpected end of file"),
                        },
                    ),
                    ParseError::InvalidUtf8 => Err(
                        LoadError::Parse {
                            path: to_string(source),
                            line: 0,
                            column: 0,
                            message: to_string("invalid UTF-8"),
                        },
                    ),
                };
            },
        };
        let count = definitions.len();
        let mut registry = PhraseRegistry::new();
        assert(registry@ == empty_registry()) by {
            assert(registry@.defs =~= seq![]);
            assert(registry@.ids =~= Map::<u64, Seq<char>>::empty());
            assert(registry@.cache =~= seq![]);
        }
        let result = registry.insert_all(definitions);
        let ghost before = self.registries@;
        self.registries.push((to_string(language), registry));
        assert(keyed_view(self.registries@) =~= keyed_view(before).push((language@, registry@)));
        match result {
            Ok(()) => Ok(count),
            Err(e) => {
                let message = not_found_message(e);
                Err(LoadError::Parse { path: to_string(source), line: 0, column: 0, message })
            },
        }
    }

    /// Loads translations for a language from a source text, replacing what
    /// was loaded for it; the language then has no file to reload from.
    pub fn load_translations_str(&mut self, language: &str, content: &str) -> (r: Result<usize, LoadError>)
        ensures
            final(self)@ == (LocaleModel {
                registries: registries_after_load(without(old(self)@.registries, language@), language@, content@),
                paths: without(old(self)@.paths, language@),
                ..old(self)@
            }),
            match r {
                Ok(n) => load_result_ok(content@) == Some(n as nat),
                Err(e) => load_result_ok(content@) is None && load_error_matches(e, string_source(language@), content@),
            },
    {
        remove_key(&mut self.loaded_paths, language);
        self.clear_language(language);
        proof {
            lemma_without_absent(old(self)@.registries, language@);
        }
        let mut source = to_string("<");
        push_str(&mut source, language);
        push_str(&mut source, ">");
        self.load_content(language, content, source.as_str())
    }

    /// Loads translations for a language from the content of a file, replacing
    /// what was loaded for it; on success the path is kept for reloading.
    pub fn load_translations_content(&mut self, language: &str, path: &str, content: &str) -> (r: Result<usize, LoadError>)
        ensures
            final(self)@.registries == registries_after_load(without(old(self)@.registries, language@), language@, content@),
            final(self)@.paths == if r is Ok {
                with_entry(old(self)@.paths, language@, path@)
            } else {
                old(self)@.paths
            },
            final(self)@.language == old(self)@.language,
            final(self)@.string_context == old(self)@.string_context,
            final(self)@.cache == old(self)@.cache,
            match r {
                Ok(n) => load_result_ok(content@) == Some(n as nat),
                Err(e) => load_result_ok(content@) is None && load_error_matches(e, path@, content@),
            },
    {
        self.clear_language(language);
        proof {
            lemma_without_absent(old(self)@.registries, language@);
        }
        let r = self.load_content(language, content, path);
        match r {
            Ok(_) => {
                let ghost before = self.loaded_paths@;
                match self.path_position(language) {
                    Some(i) => {
                        self.loaded_paths.set(i, (to_string(language), to_string(path)));
                        assert(keyed_view(self.loaded_paths@) =~= keyed_view(before).update(i as int, (language@, path@)));
                    },
                    None => {
                        self.loaded_paths.push((to_string(language), to_string(path)));
                        assert(keyed_view(self.loaded_paths@) =~= keyed_view(before).push((language@, path@)));
                    },
                }
            },
            Err(_) => {},
        }
        r
    }

    /// The path that a language was loaded from, for reloading it.
    pub fn reload_source(&self, language: &str) -> (r: Result<String, LoadError>)
        ensures
            match entry_of(self@.paths, language@) {
                Some(p) => r matches Ok(s) && s@ == p,
                None => r matches Err(LoadError::NoPathForReload { language: l }) && l@ == language@,
            },
    {
        match self.path_position(language) {
            Some(i) => {
                assert(self@.paths[i as int].1 == self.loaded_paths@[i as int].1@);
                Ok(copy_string(&self.loaded_paths[i].1))
            },
            None => Err(LoadError::NoPathForReload { language: to_string(language) }),
        }
    }

    /// Checks a target language against a source language: names of the
    /// target (in sorted order) that the source lacks, and those whose
    /// parameter count differs. Nothing where either is not loaded.
    pub fn validate_translations(&self, source_language: &str, target_language: &str) -> (r: Vec<LoadWarning>)
        ensures
            warnings_model(r@) == validate_spec(self@, source_language@, target_language@),
    {
        let mut warnings: Vec<LoadWarning> = Vec::new();
        assert(warnings_model(warnings@) =~= seq![]);
        let source = match self.registry_for(source_language) {
            Some(r) => r,
            None => return warnings,
        };
        let target = match self.registry_for(target_language) {
            Some(r) => r,
            None => return warnings,
        };
        let names = sorted(&target.phrase_names());
        let ghost nv = strings_view(names@);
        let ghost sdefs = source@.defs;
        let ghost tdefs = target@.defs;
        let mut i: usize = 0;
        assert(nv.take(0) =~= seq![]);
        while i < names.len()
            invariant
                i <= names.len(),
                nv == strings_view(names@),
                sdefs == source@.defs,
                tdefs == target@.defs,
                warnings_model(warnings@) == validate_names(sdefs, tdefs, nv.take(i as int), target_language@),
            decreases names.len() - i,
        {
            let ghost before = warnings_model(warnings@);
            assert(nv.take(i as int + 1).drop_last() =~= nv.take(i as int));
            assert(nv.take(i as int + 1).last() == names@[i as int]@);
            let name = names[i].as_str();
            match source.get(name) {
                Some(sd) => match target.get(name) {
                    Some(td) => {
                        if sd.parameters.len() != td.parameters.len() {
                            let w = LoadWarning::ParameterCountMismatch {
                                name: to_string(name),
                                language: to_string(target_language),
                                source_count: sd.parameters.len(),
                                translation_count: td.parameters.len(),
                            };
                            warnings.push(w);
                            assert(warnings_model(warnings@) =~= before.push(w@));
                        }
                    },
                    None => {},
                },
                None => {
                    let w = LoadWarning::UnknownPhrase { name: to_string(name), language: to_string(target_language) };
                    warnings.push(w);
                    assert(warnings_model(warnings@) =~= before.push(w@));
                },
            }
            i = i + 1;
        }
        assert(nv.take(i as int) =~= nv);
        warnings
    }

    /// Evaluates a phrase without parameters in the current language.
    ///
    /// Terms may reference one another at most 64 deep, and contexts (each
    /// phrase call and each `:from` variant opens one) nest at most 256
    /// deep; evaluation that would go deeper, such as a phrase that calls
    /// itself without end, gives `EvalError::MaxDepthExceeded`.
    pub fn get_phrase(&self, name: &str) -> (r: Result<Phrase, EvalError>)
        ensures
            outcome_phrase(r) == locale_call_spec(self@, name@, seq![]),
    {
        self.call_phrase(name, &[])
    }

    /// Calls a phrase of the current language with positional arguments.
    ///
    /// Terms may reference one another at most 64 deep, and contexts (each
    /// phrase call and each `:from` variant opens one) nest at most 256
    /// deep; evaluation that would go deeper, such as a phrase that calls
    /// itself without end, gives `EvalError::MaxDepthExceeded`.
    pub fn call_phrase(&self, name: &str, args: &[Value]) -> (r: Result<Phrase, EvalError>)
        ensures
            outcome_phrase(r) == locale_call_spec(self@, name@, values_view(args@)),
    {
        let registry = match self.registry() {
            Some(r) => r,
            None => return Err(EvalError::PhraseNotFound { name: to_string(name) }),
        };
        let def = match registry.get(name) {
            Some(d) => d,
            None => return Err(EvalError::PhraseNotFound { name: to_string(name) }),
        };
        if def.parameters.len() != args.len() {
            return Err(EvalError::ArgumentCount { phrase: to_string(name), expected: def.parameters.len(), got: args.len() });
        }
        let vals = duplicate_values(args);
        let params = bind_params_exec(&def.parameters, vals);
        let sc = match &self.string_context {
            Some(s) => Some(copy_string(s)),
            None => None,
        };
        let mut ctx = EvalContext::with_string_context(&params, sc);
        match ctx.push_call(name) {
            Ok(()) => {},
            Err(e) => return Err(e),
        }
        let result = match eval_phrase_def(def, &mut ctx, registry, &self.transforms, self.language.as_str()) {
            Ok(p) => p,
            Err(e) => return Err(e),
        };
        ctx.pop_call();
        Ok(result)
    }

    /// Evaluates a phrase without parameters of the current language by the
    /// id of its name.
    ///
    /// Terms may reference one another at most 64 deep, and contexts (each
    /// phrase call and each `:from` variant opens one) nest at most 256
    /// deep; evaluation that would go deeper, such as a phrase that calls
    /// itself without end, gives `EvalError::MaxDepthExceeded`.
    pub fn get_phrase_by_id(&self, id: u64) -> (r: Result<Phrase, EvalError>)
        ensures
            outcome_phrase(r) == locale_call_by_id_spec(self@, id, seq![]),
    {
        self.call_phrase_by_id(id, &[])
    }

    /// Calls a phrase of the current language by the id of its name.
    ///
    /// Terms may reference one another at most 64 deep, and contexts (each
    /// phrase call and each `:from` variant opens one) nest at most 256
    /// deep; evaluation that would go deeper, such as a phrase that calls
    /// itself without end, gives `EvalError::MaxDepthExceeded`.
    pub fn call_phrase_by_id(&self, id: u64, args: &[Value]) -> (r: Result<Phrase, EvalError>)
        ensures
            outcome_phrase(r) == locale_call_by_id_spec(self@, id, values_view(args@)),
    {
        let registry = match self.registry() {
            Some(r) => r,
            None => return Err(EvalError::PhraseNotFoundById { id }),
        };
        let name = match registry.name_for_id(id) {
            Some(n) => n,
            None => return Err(EvalError::PhraseNotFoundById { id }),
        };
        self.call_phrase(name, args)
    }

    /// The name registered for an id in the current language.
    pub fn name_for_id(&self, id: u64) -> (r: Option<&str>)
        ensures
            match r {
                Some(n) => entry_of(self@.registries, self@.language) matches Some(reg) && names_id(reg, id, n@),
                None => match entry_of(self@.registries, self@.language) {
                    Some(reg) => no_name_for(reg, id),
                    None => true,
                },
            },
    {
        match self.registry() {
            Some(r) => r.name_for_id(id),
            None => None,
        }
    }

    /// The number of parameters of the phrase with an id in the current
    /// language; 0 where there is none.
    pub fn phrase_parameter_count(&self, id: u64) -> (r: usize)
        ensures
            r == id_parameter_count(self@, id),
    {
        match self.registry() {
            Some(r) => r.phrase_parameter_count(id),
            None => 0,
        }
    }

    /// Evaluates a template string in the current language with the given
    /// parameters, caching its parse.
    ///
    /// Terms may reference one another at most 64 deep, and contexts (each
    /// phrase call and each `:from` variant opens one) nest at most 256
    /// deep; evaluation that would go deeper, such as a phrase that calls
    /// itself without end, gives `EvalError::MaxDepthExceeded`.
    pub fn eval_str(&mut self, template_str: &str, params: Vec<(String, Value)>) -> (r: Result<Phrase, EvalError>)
        ensures
            outcome_phrase(r) == match entry_of(old(self)@.registries, old(self)@.language) {
                None => Err(EvalErrorModel::PhraseNotFound(no_translations(old(self)@.language))),
                Some(reg) => eval_str_spec(reg.defs, template_str@, params_view(params@), old(self)@.string_context, old(self)@.language),
            },
            final(self)@ == (LocaleModel {
                cache: if entry_of(old(self)@.registries, old(self)@.language) is Some {
                    cache_after(old(self)@.cache, template_str@)
                } else {
                    old(self)@.cache
                },
                ..old(self)@
            }),
    {
        let ri = match self.registry_position(self.language.as_str()) {
            Some(ri) => ri,
            None => {
                let mut name = to_string("no translations loaded for language '");
                push_str(&mut name, self.language.as_str());
                push_str(&mut name, "'");
                return Err(EvalError::PhraseNotFound { name });
            },
        };
        let i = match self.template_cache.fetch(template_str) {
            Ok(i) => i,
            Err(e) => return Err(e),
        };
        let this: &Locale = &*self;
        assert(this@.registries[ri as int].1 == this.registries@[ri as int].1@);
        let registry = &this.registries[ri].1;
        let sc = match &this.string_context {
            Some(s) => Some(copy_string(s)),
            None => None,
        };
        let mut ctx = EvalContext::with_string_context(&params, sc);
        let text = match eval_template(
            this.template_cache.template(i),
            &mut ctx,
            registry,
            &this.transforms,
            this.language.as_str(),
        ) {
            Ok(t) => t,
            Err(e) => return Err(e),
        };
        let p = Phrase::from_text(text);
        assert(p@.variants =~= seq![]);
        assert(p@.tags =~= seq![]);
        Ok(p)
    }

    /// Empties the template cache.
    pub fn clear_template_cache(&mut self)
        ensures
            final(self)@ == (LocaleModel { cache: seq![], ..old(self)@ }),
    {
        self.template_cache.clear();
        assert(self@.cache =~= seq![]);
    }

    /// How many templates are cached.
    pub fn template_cache_len(&self) -> (r: usize)
        ensures
            r == self@.cache.len(),
    {
        self.template_cache.len()
    }
}

impl Default for Locale {
    /// A locale for English, with nothing loaded.
    fn default() -> (r: Locale)
        ensures
            r@.language == "en"@,
            r@.string_context is None,
            r@.registries.len() == 0,
            r@.paths.len() == 0,
            r@.cache.len() == 0,
    {
        Locale::new()
    }
}

impl PhraseId {
    /// Evaluates the phrase with this id, without parameters, in the
    /// locale's current language.
    ///
    /// Terms may reference one another at most 64 deep, and contexts (each
    /// phrase call and each `:from` variant opens one) nest at most 256
    /// deep; evaluation that would go deeper, such as a phrase that calls
    /// itself without end, gives `EvalError::MaxDepthExceeded`.
    pub fn resolve(&self, locale: &Locale) -> (r: Result<Phrase, EvalError>)
        ensures
            outcome_phrase(r) == locale_call_by_id_spec(locale@, self.0, seq![]),
    {
        locale.get_phrase_by_id(self.0)
    }

    /// Calls the phrase with this id in the locale's current language.
    ///
    /// Terms may reference one another at most 64 deep, and contexts (each
    /// phrase call and each `:from` variant opens one) nest at most 256
    /// deep; evaluation that would go deeper, such as a phrase that calls
    /// itself without end, gives `EvalError::MaxDepthExceeded`.
    pub fn call(&self, locale: &Locale, args: &[Value]) -> (r: Result<Phrase, EvalError>)
        ensures
            outcome_phrase(r) == locale_call_by_id_spec(locale@, self.0, values_view(args@)),
    {
        locale.call_phrase_by_id(self.0, args)
    }

    /// The name of the phrase with this id in the locale's current language.
    pub fn name<'a>(&self, locale: &'a Locale) -> (r: Option<&'a str>)
        ensures
            match r {
                Some(n) => entry_of(locale@.registries, locale@.language) matches Some(reg) && names_id(reg, self.0, n@),
                None => match entry_of(locale@.registries, locale@.language) {
                    Some(reg) => no_name_for(reg, self.0),
                    None => true,
                },
            },
    {
        locale.name_for_id(self.0)
    }

    /// Whether the phrase with this id takes parameters.
    pub fn has_parameters(&self, locale: &Locale) -> (r: bool)
        ensures
            r == (id_parameter_count(locale@, self.0) > 0),
    {
        locale.phrase_parameter_count(self.0) > 0
    }

    /// The number of parameters of the phrase with this id; 0 where there is
    /// none.
    pub fn parameter_count(&self, locale: &Locale) -> (r: usize)
        ensures
            r == id_parameter_count(locale@, self.0),
    {
        locale.phrase_parameter_count(self.0)
    }

    /// Evaluates the phrase with this id, without parameters, from a
    /// registry.
    pub fn resolve_with_registry(&self, registry: &PhraseRegistry, lang: &str) -> (r: Result<Phrase, EvalError>)
        ensures
            outcome_phrase(r) == call_by_id_spec(registry@, self.0, seq![], lang@),
    {
        registry.get_phrase_by_id(self.0, lang)
    }

    /// Calls the phrase with this id from a registry.
    pub fn call_with_registry(&self, registry: &PhraseRegistry, lang: &str, args: &[Value]) -> (r: Result<Phrase, EvalError>)
        ensures
            outcome_phrase(r) == call_by_id_spec(registry@, self.0, values_view(args@), lang@),
    {
        registry.call_phrase_by_id(self.0, lang, args)
    }
}

/// Removes the entries stored under a key, keeping the order of the others.
fn remove_key<V: View>(v: &mut Vec<(String, V)>, k: &str)
    ensures
        keyed_view(final(v)@) == without(keyed_view(old(v)@), k@),
{
    let ghost s = keyed_view(v@);
    let mut rest: Vec<(String, V)> = Vec::new();
    std::mem::swap(&mut rest, v);
    let mut j: usize = 0;
    let n = rest.len();
    assert(s.take(0) =~= seq![]);
    assert(keyed_view(v@) =~= seq![]);
    assert(keyed_view(rest@) =~= s.skip(0));
    while rest.len() > 0
        invariant
            j + rest.len() == n,
            n == s.len(),
            keyed_view(rest@) == s.skip(j as int),
            keyed_view(v@) == without(s.take(j as int), k@),
        decreases rest.len(),
    {
        let ghost before_rest = keyed_view(rest@);
        let ghost before_v = keyed_view(v@);
        let ghost r0 = rest@[0];
        assert((r0.0@, r0.1@) == before_rest[0]);
        assert(before_rest[0] == s[j as int]);
        let e = rest.remove(0);
        assert(keyed_view(rest@) =~= before_rest.remove(0));
        assert(keyed_view(rest@) =~= s.skip(j as int + 1));
        assert((e.0@, e.1@) == s[j as int]);
        assert(s.take(j as int + 1).drop_last() =~= s.take(j as int));
        if !str_eq(e.0.as_str(), k) {
            v.push(e);
            assert(keyed_view(v@) =~= before_v.push(s[j as int]));
        }
        j = j + 1;
    }
    assert(s.take(j as int) =~= s);
}

pub(crate) proof fn lemma_without_absent<V>(s: Seq<(Seq<char>, V)>, k: Seq<char>)
    ensures
        key_index(without(s, k), k) is None,
{
    lemma_without_keys(s, k);
    lemma_key_index_none(without(s, k), k);
}

proof fn lemma_without_keys<V>(s: Seq<(Seq<char>, V)>, k: Seq<char>)
    ensures
        forall|j: int| 0 <= j < without(s, k).len() ==> #[trigger] without(s, k)[j].0 != k,
    decreases s.len(),
{
    if s.len() > 0 {
        lemma_without_keys(s.drop_last(), k);
        let w = without(s.drop_last(), k);
        if s.last().0 != k {
            assert forall|j: int| 0 <= j < w.push(s.last()).len() implies #[trigger] w.push(s.last())[j].0 != k by {
                if j < w.len() {
                    assert(w.push(s.last())[j] == w[j]);
                }
            }
        }
    }
}

} // verus!
