//! Syntax tree of RLF templates and phrase definitions, and the models the
//! specifications use for it.
use vstd::prelude::*;
use crate::types::{Tag, tags_view};

verus! {

// ---------------------------------------------------------------------------
// Models
// ---------------------------------------------------------------------------

pub enum TransformContextModel {
    Absent,
    Static(Seq<char>),
    Dynamic(Seq<char>),
    Both(Seq<char>, Seq<char>),
}

pub struct TransformModel {
    pub name: Seq<char>,
    pub context: TransformContextModel,
}

pub enum ReferenceModel {
    Identifier(Seq<char>),
    Parameter(Seq<char>),
    PhraseCall { name: Seq<char>, args: Seq<ReferenceModel> },
    NumberLiteral(i64),
    StringLiteral(Seq<char>),
}

pub enum SelectorModel {
    Identifier(Seq<char>),
    Parameter(Seq<char>),
    Default,
}

pub enum SegmentModel {
    Literal(Seq<char>),
    Interpolation {
        transforms: Seq<TransformModel>,
        reference: ReferenceModel,
        selectors: Seq<SelectorModel>,
    },
}

pub struct MatchKeyModel {
    pub value: Seq<char>,
    pub default_dimensions: Seq<bool>,
}

pub struct MatchBranchModel {
    pub keys: Seq<MatchKeyModel>,
    pub template: Seq<SegmentModel>,
}

pub enum VariantEntryBodyModel {
    Template(Seq<SegmentModel>),
    Match { match_params: Seq<Seq<char>>, branches: Seq<MatchBranchModel> },
}

pub struct VariantEntryModel {
    pub keys: Seq<Seq<char>>,
    pub body: VariantEntryBodyModel,
    pub is_default: bool,
}

pub enum PhraseBodyModel {
    Simple(Seq<SegmentModel>),
    Variants(Seq<VariantEntryModel>),
    Match(Seq<MatchBranchModel>),
}

pub struct PhraseDefinitionModel {
    pub is_phrase: bool,
    pub name: Seq<char>,
    pub parameters: Seq<Seq<char>>,
    pub tags: Seq<Seq<char>>,
    pub from_param: Option<Seq<char>>,
    pub match_params: Seq<Seq<char>>,
    pub body: PhraseBodyModel,
    pub has_empty_parens: bool,
}

pub open spec fn strings_view(v: Seq<String>) -> Seq<Seq<char>> {
    v.map_values(|s: String| s@)
}

// ---------------------------------------------------------------------------
// Templates
// ---------------------------------------------------------------------------

/// A parsed template string: its segments.
#[derive(Debug)]
pub struct Template {
    pub segments: Vec<Segment>,
}

/// A segment of a template: literal text or an interpolation
/// `{transforms reference selectors}`.
#[derive(Debug)]
pub enum Segment {
    Literal(String),
    Interpolation { transforms: Vec<Transform>, reference: Reference, selectors: Vec<Selector> },
}

/// A transform applied to a reference (`@cap`, `@der:acc`, `@count($n)`).
#[derive(Debug)]
pub struct Transform {
    /// Transform name without `@`.
    pub name: String,
    /// Optional context of the transform.
    pub context: TransformContext,
}

/// Context of a transform: static (`:literal`), dynamic (`($param)`), or
/// both.
#[derive(Debug)]
pub enum TransformContext {
    Absent,
    Static(String),
    Dynamic(String),
    Both(String, String),
}

/// A reference to a parameter, term or phrase.
#[derive(Debug)]
pub enum Reference {
    /// A term or phrase by bare name: `{card}`.
    Identifier(String),
    /// A parameter: `{$name}` (the name is held without `$`).
    Parameter(String),
    /// A phrase call with arguments: `{phrase($a, $b)}`.
    PhraseCall { name: String, args: Vec<Reference> },
    /// An integer argument in a phrase call: `{cards(2)}`.
    NumberLiteral(i64),
    /// A string argument in a phrase call: `{trigger("Attack")}`.
    StringLiteral(String),
}

/// A selector for variant selection.
#[derive(Debug)]
pub enum Selector {
    /// A static selector: `:one`, `:nom`.
    Identifier(String),
    /// A parameter selector: `:$n` (the name is held without `$`).
    Parameter(String),
    /// The explicit default selector `:*`.
    Default,
}

impl View for TransformContext {
    type V = TransformContextModel;

    open spec fn view(&self) -> TransformContextModel {
        match self {
            TransformContext::Absent => TransformContextModel::Absent,
            TransformContext::Static(s) => TransformContextModel::Static(s@),
            TransformContext::Dynamic(s) => TransformContextModel::Dynamic(s@),
            TransformContext::Both(a, b) => TransformContextModel::Both(a@, b@),
        }
    }
}

impl View for Transform {
    type V = TransformModel;

    open spec fn view(&self) -> TransformModel {
        TransformModel { name: self.name@, context: self.context@ }
    }
}

/// The model of a reference; the arguments of a call by their models.
pub open spec fn reference_model(r: Reference) -> ReferenceModel
    decreases r,
{
    match r {
        Reference::Identifier(s) => ReferenceModel::Identifier(s@),
        Reference::Parameter(s) => ReferenceModel::Parameter(s@),
        Reference::PhraseCall { name, args } => ReferenceModel::PhraseCall {
            name: name@,
            args: Seq::new(
                args.len() as nat,
                |i: int|
                    if 0 <= i < args.len() {
                        reference_model(args@[i])
                    } else {
                        ReferenceModel::NumberLiteral(0)
                    },
            ),
        },
        Reference::NumberLiteral(n) => ReferenceModel::NumberLiteral(n),
        Reference::StringLiteral(s) => ReferenceModel::StringLiteral(s@),
    }
}

impl View for Reference {
    type V = ReferenceModel;

    open spec fn view(&self) -> ReferenceModel {
        reference_model(*self)
    }
}

impl View for Selector {
    type V = SelectorModel;

    open spec fn view(&self) -> SelectorModel {
        match self {
            Selector::Identifier(s) => SelectorModel::Identifier(s@),
            Selector::Parameter(s) => SelectorModel::Parameter(s@),
            Selector::Default => SelectorModel::Default,
        }
    }
}

pub open spec fn transforms_view(v: Seq<Transform>) -> Seq<TransformModel> {
    v.map_values(|t: Transform| t@)
}

pub open spec fn selectors_view(v: Seq<Selector>) -> Seq<SelectorModel> {
    v.map_values(|s: Selector| s@)
}

impl View for Segment {
    type V = SegmentModel;

    open spec fn view(&self) -> SegmentModel {
        match self {
            Segment::Literal(s) => SegmentModel::Literal(s@),
            Segment::Interpolation { transforms, reference, selectors } => SegmentModel::Interpolation {
                transforms: transforms_view(transforms@),
                reference: reference@,
                selectors: selectors_view(selectors@),
            },
        }
    }
}

pub open spec fn segments_view(v: Seq<Segment>) -> Seq<SegmentModel> {
    v.map_values(|s: Segment| s@)
}

impl View for Template {
    type V = Seq<SegmentModel>;

    open spec fn view(&self) -> Seq<SegmentModel> {
        segments_view(self.segments@)
    }
}

// ---------------------------------------------------------------------------
// Definitions
// ---------------------------------------------------------------------------

/// Whether a definition is a term (no parameters) or a phrase.
#[derive(Debug, Clone, Copy, PartialEq, Eq, Structural)]
pub enum DefinitionKind {
    Term,
    Phrase,
}

/// A single key of a `:match` branch, such as `1`, `other`, `1.masc`; the
/// default markers `*` are held per dimension.
#[derive(Debug)]
pub struct MatchKey {
    /// The key value with default markers removed.
    pub value: String,
    /// Whether each dimension of the key is marked as default.
    pub default_dimensions: Vec<bool>,
}

/// A branch of a `:match` block.
#[derive(Debug)]
pub struct MatchBranch {
    pub keys: Vec<MatchKey>,
    pub template: Template,
}

/// The body of a variant entry: a template or a `:match` block.
#[derive(Debug)]
pub enum VariantEntryBody {
    Template(Template),
    Match { match_params: Vec<String>, branches: Vec<MatchBranch> },
}

/// An entry of a variant block.
#[derive(Debug)]
pub struct VariantEntry {
    /// Variant keys sharing the body.
    pub keys: Vec<String>,
    /// Body of the entry.
    pub body: VariantEntryBody,
    /// Whether the entry is marked as default with `*`.
    pub is_default: bool,
}

/// The body of a phrase definition.
#[derive(Debug)]
pub enum PhraseBody {
    Simple(Template),
    Variants(Vec<VariantEntry>),
    Match(Vec<MatchBranch>),
}

/// A parsed phrase definition.
#[derive(Debug)]
pub struct PhraseDefinition {
    pub kind: DefinitionKind,
    pub name: String,
    pub parameters: Vec<String>,
    pub tags: Vec<Tag>,
    pub from_param: Option<String>,
    pub match_params: Vec<String>,
    pub body: PhraseBody,
    pub has_empty_parens: bool,
}

impl View for MatchKey {
    type V = MatchKeyModel;

    open spec fn view(&self) -> MatchKeyModel {
        MatchKeyModel { value: self.value@, default_dimensions: self.default_dimensions@ }
    }
}

pub open spec fn match_keys_view(v: Seq<MatchKey>) -> Seq<MatchKeyModel> {
    v.map_values(|k: MatchKey| k@)
}

impl View for MatchBranch {
    type V = MatchBranchModel;

    open spec fn view(&self) -> MatchBranchModel {
        MatchBranchModel { keys: match_keys_view(self.keys@), template: self.template@ }
    }
}

pub open spec fn branches_view(v: Seq<MatchBranch>) -> Seq<MatchBranchModel> {
    v.map_values(|b: MatchBranch| b@)
}

impl View for VariantEntryBody {
    type V = VariantEntryBodyModel;

    open spec fn view(&self) -> VariantEntryBodyModel {
        match self {
            VariantEntryBody::Template(t) => VariantEntryBodyModel::Template(t@),
            VariantEntryBody::Match { match_params, branches } => VariantEntryBodyModel::Match {
                match_params: strings_view(match_params@),
                branches: branches_view(branches@),
            },
        }
    }
}

impl View for VariantEntry {
    type V = VariantEntryModel;

    open spec fn view(&self) -> VariantEntryModel {
        VariantEntryModel {
            keys: strings_view(self.keys@),
            body: self.body@,
            is_default: self.is_default,
        }
    }
}

pub open spec fn entries_model(v: Seq<VariantEntry>) -> Seq<VariantEntryModel> {
    v.map_values(|e: VariantEntry| e@)
}

impl View for PhraseBody {
    type V = PhraseBodyModel;

    open spec fn view(&self) -> PhraseBodyModel {
        match self {
            PhraseBody::Simple(t) => PhraseBodyModel::Simple(t@),
            PhraseBody::Variants(es) => PhraseBodyModel::Variants(entries_model(es@)),
            PhraseBody::Match(bs) => PhraseBodyModel::Match(branches_view(bs@)),
        }
    }
}

impl View for PhraseDefinition {
    type V = PhraseDefinitionModel;

    open spec fn view(&self) -> PhraseDefinitionModel {
        PhraseDefinitionModel {
            is_phrase: self.kind == DefinitionKind::Phrase,
            name: self.name@,
            parameters: strings_view(self.parameters@),
            tags: tags_view(self.tags@),
            from_param: match &self.from_param {
                Some(s) => Some(s@),
                None => None,
            },
            match_params: strings_view(self.match_params@),
            body: self.body@,
            has_empty_parens: self.has_empty_parens,
        }
    }
}

pub open spec fn definitions_view(v: Seq<PhraseDefinition>) -> Seq<PhraseDefinitionModel> {
    v.map_values(|d: PhraseDefinition| d@)
}

} // verus!
