//! Static lint rules over parsed phrase definitions: verbose `:from`
//! patterns and likely missing `:from` annotations.
use vstd::prelude::*;
use crate::ast::{
    DefinitionKind, PhraseBody, PhraseDefinition, Reference, Segment, Selector, Template,
    VariantEntry, VariantEntryBody, MatchBranch, PhraseDefinitionModel, PhraseBodyModel,
    ReferenceModel, SegmentModel, SelectorModel, VariantEntryModel, VariantEntryBodyModel,
    MatchBranchModel, strings_view, entries_model, branches_view, reference_model,
};
use crate::errors::{LoadWarning, LoadWarningModel, warnings_model};
use crate::evaluator::list_contains;
use crate::text::{str_eq, chars_of, copy_string, to_string};

verus! {

// ---------------------------------------------------------------------------
// What the lints report
// ---------------------------------------------------------------------------

/// A segment of a template with the `:from` passthrough replaced by a
/// placeholder.
pub enum NormModel {
    Literal(Seq<char>),
    Placeholder,
    Other,
}

/// Whether a segment passes the `:from` parameter through, selected by one
/// of the entry's keys: `{$p:key}` with no transform.
pub open spec fn is_passthrough(seg: SegmentModel, fp: Seq<char>, keys: Seq<Seq<char>>) -> bool {
    match seg {
        SegmentModel::Interpolation { transforms, reference, selectors } => reference == ReferenceModel::Parameter(fp)
            && transforms.len() == 0 && selectors.len() == 1 && match selectors[0] {
            SelectorModel::Identifier(k) => keys.contains(k),
            _ => false,
        },
        SegmentModel::Literal(_) => false,
    }
}

pub open spec fn norm_segment(seg: SegmentModel, fp: Seq<char>, keys: Seq<Seq<char>>) -> NormModel {
    match seg {
        SegmentModel::Literal(s) => NormModel::Literal(s),
        SegmentModel::Interpolation { .. } => if is_passthrough(seg, fp, keys) {
            NormModel::Placeholder
        } else {
            NormModel::Other
        },
    }
}

/// The number of passthrough segments.
pub open spec fn passthrough_count(segs: Seq<SegmentModel>, fp: Seq<char>, keys: Seq<Seq<char>>) -> nat
    decreases segs.len(),
{
    if segs.len() == 0 {
        0
    } else {
        passthrough_count(segs.drop_last(), fp, keys) + if is_passthrough(segs.last(), fp, keys) {
            1nat
        } else {
            0nat
        }
    }
}

/// A template normalized for comparison, where it passes the `:from`
/// parameter through exactly once.
pub open spec fn normalize(segs: Seq<SegmentModel>, fp: Seq<char>, keys: Seq<Seq<char>>) -> Option<Seq<NormModel>> {
    if passthrough_count(segs, fp, keys) == 1 {
        Some(segs.map_values(|s: SegmentModel| norm_segment(s, fp, keys)))
    } else {
        None
    }
}

/// The normalized template of a variant entry, where it has one.
pub open spec fn entry_norm(e: VariantEntryModel, fp: Seq<char>) -> Option<Seq<NormModel>> {
    match e.body {
        VariantEntryBodyModel::Template(t) => normalize(t, fp, e.keys),
        VariantEntryBodyModel::Match { .. } => None,
    }
}

/// Every entry passes the `:from` parameter through, with the same text
/// around it.
pub open spec fn all_passthrough(es: Seq<VariantEntryModel>, fp: Seq<char>) -> bool {
    &&& forall|i: int| 0 <= i < es.len() ==> (#[trigger] entry_norm(es[i], fp)) is Some
    &&& forall|i: int| 0 <= i < es.len() ==> #[trigger] entry_norm(es[i], fp) == entry_norm(es[0], fp)
}

/// A `:from` variant block whose entries only pass their own key through.
pub open spec fn passthrough_lint(d: PhraseDefinitionModel, lang: Seq<char>) -> Seq<LoadWarningModel> {
    match (d.from_param, d.body) {
        (Some(fp), PhraseBodyModel::Variants(es)) => if es.len() > 0 && all_passthrough(es, fp) {
            seq![LoadWarningModel::RedundantPassthroughBlock { name: d.name, language: lang }]
        } else {
            seq![]
        },
        _ => seq![],
    }
}

/// The redundant selectors of a template: `{$p:key}` where the key is one
/// of the entry's keys.
pub open spec fn selector_lint_segs(segs: Seq<SegmentModel>, keys: Seq<Seq<char>>, fp: Seq<char>, name: Seq<char>, lang: Seq<char>) -> Seq<LoadWarningModel>
    decreases segs.len(),
{
    if segs.len() == 0 {
        seq![]
    } else {
        let prev = selector_lint_segs(segs.drop_last(), keys, fp, name, lang);
        match segs.last() {
            SegmentModel::Interpolation { reference, selectors, .. } => if reference == ReferenceModel::Parameter(fp)
                && selectors.len() == 1 {
                match selectors[0] {
                    SelectorModel::Identifier(k) => if keys.contains(k) {
                        prev.push(
                            LoadWarningModel::RedundantFromSelector {
                                name,
                                language: lang,
                                variant_key: k,
                                parameter: fp,
                            },
                        )
                    } else {
                        prev
                    },
                    _ => prev,
                }
            } else {
                prev
            },
            SegmentModel::Literal(_) => prev,
        }
    }
}

pub open spec fn selector_lint_entries(es: Seq<VariantEntryModel>, fp: Seq<char>, name: Seq<char>, lang: Seq<char>) -> Seq<LoadWarningModel>
    decreases es.len(),
{
    if es.len() == 0 {
        seq![]
    } else {
        selector_lint_entries(es.drop_last(), fp, name, lang) + match es.last().body {
            VariantEntryBodyModel::Template(t) => selector_lint_segs(t, es.last().keys, fp, name, lang),
            VariantEntryBodyModel::Match { .. } => seq![],
        }
    }
}

/// Explicit selectors on the `:from` parameter that match the enclosing
/// entry's key.
pub open spec fn selector_lint(d: PhraseDefinitionModel, lang: Seq<char>) -> Seq<LoadWarningModel> {
    match (d.from_param, d.body) {
        (Some(fp), PhraseBodyModel::Variants(es)) => selector_lint_entries(es, fp, d.name, lang),
        _ => seq![],
    }
}

/// The first parameter in references, looking into call arguments.
pub open spec fn first_param(rs: Seq<ReferenceModel>) -> Option<Seq<char>>
    decreases rs,
{
    if rs.len() == 0 {
        None
    } else {
        match rs[0] {
            ReferenceModel::Parameter(n) => Some(n),
            ReferenceModel::PhraseCall { args, .. } => {
                proof {
                    assert(decreases_to!(rs => rs[0]));
                }
                match first_param(args) {
                    Some(p) => Some(p),
                    None => first_param(rs.drop_first()),
                }
            },
            _ => first_param(rs.drop_first()),
        }
    }
}

/// The first parameter of a template used with a selector.
pub open spec fn param_with_selector(segs: Seq<SegmentModel>) -> Option<Seq<char>>
    decreases segs.len(),
{
    if segs.len() == 0 {
        None
    } else {
        match segs[0] {
            SegmentModel::Interpolation { reference, selectors, .. } => if selectors.len() > 0 && first_param(
                seq![reference],
            ) is Some {
                first_param(seq![reference])
            } else {
                param_with_selector(segs.drop_first())
            },
            SegmentModel::Literal(_) => param_with_selector(segs.drop_first()),
        }
    }
}

pub open spec fn param_in_branches(bs: Seq<MatchBranchModel>) -> Option<Seq<char>>
    decreases bs.len(),
{
    if bs.len() == 0 {
        None
    } else {
        match param_with_selector(bs[0].template) {
            Some(p) => Some(p),
            None => param_in_branches(bs.drop_first()),
        }
    }
}

pub open spec fn param_in_entries(es: Seq<VariantEntryModel>) -> Option<Seq<char>>
    decreases es.len(),
{
    if es.len() == 0 {
        None
    } else {
        match (match es[0].body {
            VariantEntryBodyModel::Template(t) => param_with_selector(t),
            VariantEntryBodyModel::Match { branches, .. } => param_in_branches(branches),
        }) {
            Some(p) => Some(p),
            None => param_in_entries(es.drop_first()),
        }
    }
}

/// A phrase without `:from` or tags that uses a parameter with a selector.
pub open spec fn missing_from_lint(d: PhraseDefinitionModel, lang: Seq<char>) -> Seq<LoadWarningModel> {
    if !d.is_phrase || d.from_param is Some || d.tags.len() > 0 {
        seq![]
    } else {
        match (match d.body {
            PhraseBodyModel::Simple(t) => param_with_selector(t),
            PhraseBodyModel::Match(bs) => param_in_branches(bs),
            PhraseBodyModel::Variants(es) => param_in_entries(es),
        }) {
            Some(p) => seq![LoadWarningModel::LikelyMissingFrom { name: d.name, language: lang, parameter: p }],
            None => seq![],
        }
    }
}

/// `:from($p) "{$p}"`, which the body-less form says more briefly.
pub open spec fn wrapper_lint(d: PhraseDefinitionModel, lang: Seq<char>) -> Seq<LoadWarningModel> {
    match (d.from_param, d.body) {
        (Some(fp), PhraseBodyModel::Simple(t)) => if t.len() == 1 && match t[0] {
            SegmentModel::Interpolation { transforms, reference, selectors } => transforms.len() == 0
                && selectors.len() == 0 && reference == ReferenceModel::Parameter(fp),
            SegmentModel::Literal(_) => false,
        } {
            seq![LoadWarningModel::VerboseTransparentWrapper { name: d.name, language: lang }]
        } else {
            seq![]
        },
        _ => seq![],
    }
}

/// The warnings of one definition, rule by rule.
pub open spec fn lint_one(d: PhraseDefinitionModel, lang: Seq<char>) -> Seq<LoadWarningModel> {
    passthrough_lint(d, lang) + selector_lint(d, lang) + missing_from_lint(d, lang) + wrapper_lint(d, lang)
}

/// The warnings of definitions, in order.
pub open spec fn lint_all(defs: Seq<PhraseDefinitionModel>, lang: Seq<char>) -> Seq<LoadWarningModel>
    decreases defs.len(),
{
    if defs.len() == 0 {
        seq![]
    } else {
        lint_all(defs.drop_last(), lang) + lint_one(defs.last(), lang)
    }
}

// ---------------------------------------------------------------------------
// The lints
// ---------------------------------------------------------------------------

/// Runs the static lint rules over parsed definitions, without evaluating
/// them; the language is named in the warnings.
pub fn lint_definitions(defs: &[PhraseDefinition], language: &str) -> (r: Vec<LoadWarning>)
    ensures
        warnings_model(r@) == lint_all(crate::ast::definitions_view(defs@), language@),
{
    let ghost dv = crate::ast::definitions_view(defs@);
    let mut warnings: Vec<LoadWarning> = Vec::new();
    assert(warnings_model(warnings@) =~= seq![]);
    let mut i: usize = 0;
    assert(dv.take(0) =~= seq![]);
    while i < defs.len()
        invariant
            i <= defs.len(),
            dv == crate::ast::definitions_view(defs@),
            warnings_model(warnings@) == lint_all(dv.take(i as int), language@),
        decreases defs.len() - i,
    {
        let ghost w0 = warnings_model(warnings@);
        let def = &defs[i];
        assert(dv[i as int] == def@);
        lint_redundant_passthrough_block(def, language, &mut warnings);
        lint_redundant_from_selector(def, language, &mut warnings);
        lint_likely_missing_from(def, language, &mut warnings);
        lint_verbose_transparent_wrapper(def, language, &mut warnings);
        assert(dv.take(i as int + 1).drop_last() =~= dv.take(i as int));
        assert(warnings_model(warnings@) =~= w0 + lint_one(def@, language@));
        i = i + 1;
    }
    assert(dv.take(i as int) =~= dv);
    warnings
}

/// A normalized segment.
enum NormalizedSegment {
    Literal(String),
    Placeholder,
    Other,
}

impl View for NormalizedSegment {
    type V = NormModel;

    closed spec fn view(&self) -> NormModel {
        match self {
            NormalizedSegment::Literal(s) => NormModel::Literal(s@),
            NormalizedSegment::Placeholder => NormModel::Placeholder,
            NormalizedSegment::Other => NormModel::Other,
        }
    }
}

spec fn norms_view(v: Seq<NormalizedSegment>) -> Seq<NormModel> {
    v.map_values(|n: NormalizedSegment| n@)
}

fn same_norms(a: &Vec<NormalizedSegment>, b: &Vec<NormalizedSegment>) -> (r: bool)
    ensures
        r == (norms_view(a@) == norms_view(b@)),
{
    if a.len() != b.len() {
        assert(norms_view(a@).len() != norms_view(b@).len());
        return false;
    }
    let mut i: usize = 0;
    while i < a.len()
        invariant
            i <= a.len(),
            a.len() == b.len(),
            forall|j: int| 0 <= j < i ==> a@[j]@ == b@[j]@,
        decreases a.len() - i,
    {
        let same = match (&a[i], &b[i]) {
            (NormalizedSegment::Literal(x), NormalizedSegment::Literal(y)) => str_eq(x.as_str(), y.as_str()),
            (NormalizedSegment::Placeholder, NormalizedSegment::Placeholder) => true,
            (NormalizedSegment::Other, NormalizedSegment::Other) => true,
            _ => false,
        };
        if !same {
            assert(norms_view(a@)[i as int] != norms_view(b@)[i as int]);
            return false;
        }
        i = i + 1;
    }
    assert(norms_view(a@) =~= norms_view(b@));
    true
}

/// Whether a segment passes the `:from` parameter through.
fn segment_is_passthrough(seg: &Segment, fp: &str, keys: &Vec<String>) -> (r: bool)
    ensures
        r == is_passthrough(seg@, fp@, strings_view(keys@)),
{
    match seg {
        Segment::Interpolation { transforms, reference, selectors } => {
            let is_param = match reference {
                Reference::Parameter(p) => str_eq(p.as_str(), fp),
                _ => false,
            };
            if !is_param || transforms.len() != 0 || selectors.len() != 1 {
                return false;
            }
            match &selectors[0] {
                Selector::Identifier(k) => {
                    let kc = chars_of(k.as_str());
                    list_contains(keys, &kc)
                },
                _ => false,
            }
        },
        Segment::Literal(_) => false,
    }
}

/// A template normalized for passthrough comparison.
fn normalize_template_for_passthrough(template: &Template, fp: &str, keys: &Vec<String>) -> (r: Option<Vec<NormalizedSegment>>)
    ensures
        match r {
            Some(v) => normalize(template@, fp@, strings_view(keys@)) == Some(norms_view(v@)),
            None => normalize(template@, fp@, strings_view(keys@)) is None,
        },
{
    let ghost segs = template@;
    let ghost kv = strings_view(keys@);
    let mut found: usize = 0;
    let mut normalized: Vec<NormalizedSegment> = Vec::new();
    let mut i: usize = 0;
    assert(segs.take(0) =~= seq![]);
    while i < template.segments.len()
        invariant
            i <= template.segments.len(),
            segs == template@,
            kv == strings_view(keys@),
            found == passthrough_count(segs.take(i as int), fp@, kv),
            found <= 1,
            norms_view(normalized@) == segs.take(i as int).map_values(|s: SegmentModel| norm_segment(s, fp@, kv)),
        decreases template.segments.len() - i,
    {
        let ghost before = norms_view(normalized@);
        assert(segs.take(i as int + 1).drop_last() =~= segs.take(i as int));
        assert(segs.take(i as int + 1).last() == template.segments@[i as int]@);
        let seg = &template.segments[i];
        let n = match seg {
            Segment::Literal(s) => NormalizedSegment::Literal(copy_string(s)),
            Segment::Interpolation { .. } => if segment_is_passthrough(seg, fp, keys) {
                if found == 1 {
                    proof {
                        lemma_count_grows(segs, fp@, kv, i as int + 1);
                    }
                    return None;
                }
                found = found + 1;
                NormalizedSegment::Placeholder
            } else {
                NormalizedSegment::Other
            },
        };
        assert(n@ == norm_segment(seg@, fp@, kv));
        normalized.push(n);
        assert(norms_view(normalized@) =~= before.push(norm_segment(seg@, fp@, kv)));
        assert(norms_view(normalized@) =~= segs.take(i as int + 1).map_values(
            |s: SegmentModel| norm_segment(s, fp@, kv),
        ));
        i = i + 1;
    }
    assert(segs.take(i as int) =~= segs);
    if found == 1 {
        Some(normalized)
    } else {
        None
    }
}

proof fn lemma_count_grows(segs: Seq<SegmentModel>, fp: Seq<char>, keys: Seq<Seq<char>>, k: int)
    requires
        0 <= k <= segs.len(),
    ensures
        passthrough_count(segs, fp, keys) >= passthrough_count(segs.take(k), fp, keys),
    decreases segs.len() - k,
{
    if k < segs.len() {
        lemma_count_grows(segs, fp, keys, k + 1);
        assert(segs.take(k + 1).drop_last() =~= segs.take(k));
    } else {
        assert(segs.take(k) =~= segs);
    }
}

/// Reports a `:from` variant block whose entries only pass their own key
/// through, with the same text around it.
fn lint_redundant_passthrough_block(def: &PhraseDefinition, language: &str, warnings: &mut Vec<LoadWarning>)
    ensures
        warnings_model(final(warnings)@) == warnings_model(old(warnings)@) + passthrough_lint(def@, language@),
{
    let ghost w0 = warnings_model(warnings@);
    let fp = match &def.from_param {
        Some(fp) => fp,
        None => {
            assert(w0 + seq![] =~= w0);
            return;
        },
    };
    let entries = match &def.body {
        PhraseBody::Variants(es) => es,
        _ => {
            assert(w0 + seq![] =~= w0);
            return;
        },
    };
    if entries.len() == 0 {
        assert(w0 + seq![] =~= w0);
        return;
    }
    let ghost ev = entries_model(entries@);
    let mut reference: Option<Vec<NormalizedSegment>> = None;
    let mut i: usize = 0;
    while i < entries.len()
        invariant
            i <= entries.len(),
            entries.len() > 0,
            ev == entries_model(entries@),
            w0 == warnings_model(warnings@),
            def@.from_param == Some(fp@),
            def@.body == PhraseBodyModel::Variants(ev),
            forall|j: int| 0 <= j < i ==> (#[trigger] entry_norm(ev[j], fp@)) is Some,
            forall|j: int| 0 <= j < i ==> #[trigger] entry_norm(ev[j], fp@) == entry_norm(ev[0], fp@),
            i == 0 <==> reference is None,
            match reference {
                Some(v) => entry_norm(ev[0], fp@) == Some(norms_view(v@)),
                None => true,
            },
        decreases entries.len() - i,
    {
        assert(ev[i as int] == entries@[i as int]@);
        let entry = &entries[i];
        let normalized = match &entry.body {
            VariantEntryBody::Template(t) => normalize_template_for_passthrough(t, fp.as_str(), &entry.keys),
            VariantEntryBody::Match { .. } => None,
        };
        let normalized = match normalized {
            Some(n) => n,
            None => {
                assert(entry_norm(ev[i as int], fp@) is None);
                assert(!all_passthrough(ev, fp@));
                assert(w0 + seq![] =~= w0);
                return;
            },
        };
        match &reference {
            None => {
                reference = Some(normalized);
            },
            Some(r) => {
                if !same_norms(r, &normalized) {
                    assert(entry_norm(ev[i as int], fp@) != entry_norm(ev[0], fp@));
                    assert(!all_passthrough(ev, fp@));
                    assert(w0 + seq![] =~= w0);
                    return;
                }
            },
        }
        i = i + 1;
    }
    assert(all_passthrough(ev, fp@));
    let w = LoadWarning::RedundantPassthroughBlock { name: copy_string(&def.name), language: to_string(language) };
    warnings.push(w);
    assert(warnings_model(warnings@) =~= w0.push(w@));
    assert(warnings_model(warnings@) =~= w0 + passthrough_lint(def@, language@));
}

/// Reports explicit selectors on the `:from` parameter that match the
/// enclosing entry's key.
fn lint_redundant_from_selector(def: &PhraseDefinition, language: &str, warnings: &mut Vec<LoadWarning>)
    ensures
        warnings_model(final(warnings)@) == warnings_model(old(warnings)@) + selector_lint(def@, language@),
{
    let ghost w0 = warnings_model(warnings@);
    let fp = match &def.from_param {
        Some(fp) => fp,
        None => {
            assert(w0 + seq![] =~= w0);
            return;
        },
    };
    let entries = match &def.body {
        PhraseBody::Variants(es) => es,
        _ => {
            assert(w0 + seq![] =~= w0);
            return;
        },
    };
    let ghost ev = entries_model(entries@);
    let mut i: usize = 0;
    assert(ev.take(0) =~= seq![]);
    assert(w0 + seq![] =~= w0);
    while i < entries.len()
        invariant
            i <= entries.len(),
            ev == entries_model(entries@),
            warnings_model(warnings@) == w0 + selector_lint_entries(ev.take(i as int), fp@, def@.name, language@),
        decreases entries.len() - i,
    {
        let ghost w1 = warnings_model(warnings@);
        assert(ev.take(i as int + 1).drop_last() =~= ev.take(i as int));
        assert(ev.take(i as int + 1).last() == entries@[i as int]@);
        let entry = &entries[i];
        match &entry.body {
            VariantEntryBody::Template(t) => {
                selector_warnings(t, &entry.keys, fp.as_str(), def.name.as_str(), language, warnings);
                assert(warnings_model(warnings@) =~= w0 + selector_lint_entries(ev.take(i as int + 1), fp@, def@.name, language@));
            },
            VariantEntryBody::Match { .. } => {
                assert(w1 + seq![] =~= w1);
                assert(warnings_model(warnings@) =~= w0 + selector_lint_entries(ev.take(i as int + 1), fp@, def@.name, language@));
            },
        }
        i = i + 1;
    }
    assert(ev.take(i as int) =~= ev);
}

fn selector_warnings(t: &Template, keys: &Vec<String>, fp: &str, name: &str, language: &str, warnings: &mut Vec<LoadWarning>)
    ensures
        warnings_model(final(warnings)@) == warnings_model(old(warnings)@) + selector_lint_segs(t@, strings_view(keys@), fp@, name@, language@),
{
    let ghost w0 = warnings_model(warnings@);
    let ghost segs = t@;
    let ghost kv = strings_view(keys@);
    let mut i: usize = 0;
    assert(segs.take(0) =~= seq![]);
    assert(w0 + seq![] =~= w0);
    while i < t.segments.len()
        invariant
            i <= t.segments.len(),
            segs == t@,
            kv == strings_view(keys@),
            warnings_model(warnings@) == w0 + selector_lint_segs(segs.take(i as int), kv, fp@, name@, language@),
        decreases t.segments.len() - i,
    {
        let ghost w1 = warnings_model(warnings@);
        assert(segs.take(i as int + 1).drop_last() =~= segs.take(i as int));
        assert(segs.take(i as int + 1).last() == t.segments@[i as int]@);
        match &t.segments[i] {
            Segment::Interpolation { reference, selectors, .. } => {
                let is_param = match reference {
                    Reference::Parameter(p) => str_eq(p.as_str(), fp),
                    _ => false,
                };
                if is_param && selectors.len() == 1 {
                    match &selectors[0] {
                        Selector::Identifier(k) => {
                            let kc = chars_of(k.as_str());
                            if list_contains(keys, &kc) {
                                let w = LoadWarning::RedundantFromSelector {
                                    name: to_string(name),
                                    language: to_string(language),
                                    variant_key: copy_string(k),
                                    parameter: to_string(fp),
                                };
                                warnings.push(w);
                                assert(warnings_model(warnings@) =~= w1.push(w@));
                            }
                        },
                        _ => {},
                    }
                }
            },
            Segment::Literal(_) => {},
        }
        assert(warnings_model(warnings@) =~= w0 + selector_lint_segs(segs.take(i as int + 1), kv, fp@, name@, language@));
        i = i + 1;
    }
    assert(segs.take(i as int) =~= segs);
}

/// The first parameter in a reference, looking into call arguments.
fn extract_first_parameter(reference: &Reference) -> (r: Option<String>)
    ensures
        match r {
            Some(p) => first_param(seq![reference@]) == Some(p@),
            None => first_param(seq![reference@]) is None,
        },
    decreases reference,
{
    match reference {
        Reference::Parameter(name) => Some(copy_string(name)),
        Reference::PhraseCall { args, .. } => {
            let ghost am = reference@->args;
            assert(am.len() == args.len());
            assert forall|j: int| 0 <= j < args.len() implies am[j] == #[trigger] args@[j]@ by {
                assert(am[j] == reference_model(args@[j]));
            }
            assert(seq![reference@].drop_first() =~= Seq::<ReferenceModel>::empty());
            assert(first_param(Seq::<ReferenceModel>::empty()) is None);
            let mut i: usize = 0;
            assert(am.skip(0) =~= am);
            while i < args.len()
                invariant
                    i <= args.len(),
                    *reference is PhraseCall,
                    args == reference->args,
                    am == reference@->args,
                    am.len() == args.len(),
                    forall|j: int| 0 <= j < args.len() ==> am[j] == #[trigger] args@[j]@,
                    first_param(am) == first_param(am.skip(i as int)),
                decreases args.len() - i,
            {
                proof {
                    assert(decreases_to!(*reference => reference->args));
                    assert(decreases_to!(reference->args => reference->args@));
                    assert(decreases_to!(args@ => args@[i as int]));
                    lemma_first_param_step(am.skip(i as int));
                    assert(am.skip(i as int)[0] == args@[i as int]@);
                    assert(am.skip(i as int).drop_first() =~= am.skip(i as int + 1));
                }
                match extract_first_parameter(&args[i]) {
                    Some(p) => {
                        return Some(p);
                    },
                    None => {},
                }
                i = i + 1;
            }
            assert(am.skip(i as int) =~= Seq::<ReferenceModel>::empty());
            None
        },
        _ => {
            assert(seq![reference@].drop_first() =~= Seq::<ReferenceModel>::empty());
            assert(first_param(Seq::<ReferenceModel>::empty()) is None);
            None
        },
    }
}

proof fn lemma_first_param_step(rs: Seq<ReferenceModel>)
    requires
        rs.len() > 0,
    ensures
        first_param(rs) == match first_param(seq![rs[0]]) {
            Some(p) => Some(p),
            None => first_param(rs.drop_first()),
        },
{
    assert(seq![rs[0]].drop_first() =~= Seq::<ReferenceModel>::empty());
    assert(first_param(Seq::<ReferenceModel>::empty()) is None);
}

/// The first parameter of a template used with a selector.
fn find_parameter_with_selector(t: &Template) -> (r: Option<String>)
    ensures
        match r {
            Some(p) => param_with_selector(t@) == Some(p@),
            None => param_with_selector(t@) is None,
        },
{
    let ghost segs = t@;
    let mut i: usize = 0;
    assert(segs.skip(0) =~= segs);
    while i < t.segments.len()
        invariant
            i <= t.segments.len(),
            segs == t@,
            param_with_selector(segs) == param_with_selector(segs.skip(i as int)),
        decreases t.segments.len() - i,
    {
        assert(segs.skip(i as int)[0] == t.segments@[i as int]@);
        assert(segs.skip(i as int).drop_first() =~= segs.skip(i as int + 1));
        match &t.segments[i] {
            Segment::Interpolation { reference, selectors, .. } => {
                if selectors.len() > 0 {
                    match extract_first_parameter(reference) {
                        Some(p) => {
                            return Some(p);
                        },
                        None => {},
                    }
                }
            },
            Segment::Literal(_) => {},
        }
        i = i + 1;
    }
    assert(segs.skip(i as int) =~= Seq::<SegmentModel>::empty());
    None
}

fn find_in_branches(bs: &Vec<MatchBranch>) -> (r: Option<String>)
    ensures
        match r {
            Some(p) => param_in_branches(branches_view(bs@)) == Some(p@),
            None => param_in_branches(branches_view(bs@)) is None,
        },
{
    let ghost bv = branches_view(bs@);
    let mut i: usize = 0;
    assert(bv.skip(0) =~= bv);
    while i < bs.len()
        invariant
            i <= bs.len(),
            bv == branches_view(bs@),
            param_in_branches(bv) == param_in_branches(bv.skip(i as int)),
        decreases bs.len() - i,
    {
        assert(bv.skip(i as int)[0] == bs@[i as int]@);
        assert(bv.skip(i as int).drop_first() =~= bv.skip(i as int + 1));
        match find_parameter_with_selector(&bs[i].template) {
            Some(p) => {
                return Some(p);
            },
            None => {},
        }
        i = i + 1;
    }
    assert(bv.skip(i as int) =~= Seq::<MatchBranchModel>::empty());
    None
}

fn find_in_entries(es: &Vec<VariantEntry>) -> (r: Option<String>)
    ensures
        match r {
            Some(p) => param_in_entries(entries_model(es@)) == Some(p@),
            None => param_in_entries(entries_model(es@)) is None,
        },
{
    let ghost ev = entries_model(es@);
    let mut i: usize = 0;
    assert(ev.skip(0) =~= ev);
    while i < es.len()
        invariant
            i <= es.len(),
            ev == entries_model(es@),
            param_in_entries(ev) == param_in_entries(ev.skip(i as int)),
        decreases es.len() - i,
    {
        assert(ev.skip(i as int)[0] == es@[i as int]@);
        assert(ev.skip(i as int).drop_first() =~= ev.skip(i as int + 1));
        let found = match &es[i].body {
            VariantEntryBody::Template(t) => find_parameter_with_selector(t),
            VariantEntryBody::Match { branches, .. } => find_in_branches(branches),
        };
        match found {
            Some(p) => {
                return Some(p);
            },
            None => {},
        }
        i = i + 1;
    }
    assert(ev.skip(i as int) =~= Seq::<VariantEntryModel>::empty());
    None
}

/// Reports a phrase without `:from` or tags that uses a parameter with a
/// selector.
fn lint_likely_missing_from(def: &PhraseDefinition, language: &str, warnings: &mut Vec<LoadWarning>)
    ensures
        warnings_model(final(warnings)@) == warnings_model(old(warnings)@) + missing_from_lint(def@, language@),
{
    let ghost w0 = warnings_model(warnings@);
    if def.kind != DefinitionKind::Phrase || def.from_param.is_some() || def.tags.len() != 0 {
        assert(w0 + seq![] =~= w0);
        return;
    }
    let found = match &def.body {
        PhraseBody::Simple(t) => find_parameter_with_selector(t),
        PhraseBody::Match(bs) => find_in_branches(bs),
        PhraseBody::Variants(es) => find_in_entries(es),
    };
    match found {
        Some(p) => {
            let w = LoadWarning::LikelyMissingFrom { name: copy_string(&def.name), language: to_string(language), parameter: p };
            warnings.push(w);
            assert(warnings_model(warnings@) =~= w0 + missing_from_lint(def@, language@));
        },
        None => {
            assert(w0 + seq![] =~= w0);
        },
    }
}

/// Reports `:from($p) "{$p}"`.
fn lint_verbose_transparent_wrapper(def: &PhraseDefinition, language: &str, warnings: &mut Vec<LoadWarning>)
    ensures
        warnings_model(final(warnings)@) == warnings_model(old(warnings)@) + wrapper_lint(def@, language@),
{
    let ghost w0 = warnings_model(warnings@);
    assert(w0 + seq![] =~= w0);
    let fp = match &def.from_param {
        Some(fp) => fp,
        None => return,
    };
    let t = match &def.body {
        PhraseBody::Simple(t) => t,
        _ => return,
    };
    if t.segments.len() != 1 {
        return;
    }
    assert(t@[0] == t.segments@[0]@);
    match &t.segments[0] {
        Segment::Interpolation { transforms, reference, selectors } => {
            if transforms.len() != 0 || selectors.len() != 0 {
                return;
            }
            match reference {
                Reference::Parameter(p) => {
                    if str_eq(p.as_str(), fp.as_str()) {
                        let w = LoadWarning::VerboseTransparentWrapper { name: copy_string(&def.name), language: to_string(language) };
                        warnings.push(w);
                        assert(warnings_model(warnings@) =~= w0 + wrapper_lint(def@, language@));
                    }
                },
                _ => {},
            }
        },
        Segment::Literal(_) => {},
    }
}

} // verus!
