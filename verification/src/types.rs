//! Runtime value types: variant keys, tags, phrases, values and phrase ids.
use vstd::prelude::*;
use crate::text::{int_decimal, join};
use vstd::string::StringSliceAdditionalSpecFns;

verus! {

// ---------------------------------------------------------------------------
// VariantKey and Tag
// ---------------------------------------------------------------------------

/// A key identifying a variant of a phrase, such as `one` or `nom.one`
/// (dot notation for several dimensions).
#[derive(Debug, Clone)]
pub struct VariantKey(pub String);

impl View for VariantKey {
    type V = Seq<char>;

    open spec fn view(&self) -> Seq<char> {
        self.0@
    }
}

impl VariantKey {
    /// Creates a variant key from a string.
    pub fn new(s: &str) -> (r: VariantKey)
        ensures
            r@ == s@,
    {
        VariantKey(crate::text::to_string(s))
    }

    /// The key as a string slice.
    pub fn as_str(&self) -> (r: &str)
        ensures
            r@ == self@,
    {
        self.0.as_str()
    }

    /// A copy of this key.
    pub fn duplicate(&self) -> (r: VariantKey)
        ensures
            r@ == self@,
    {
        VariantKey(self.0.clone())
    }
}

impl From<String> for VariantKey {
    fn from(s: String) -> (r: VariantKey) {
        VariantKey(s)
    }
}

impl vstd::std_specs::convert::FromSpecImpl<String> for VariantKey {
    open spec fn obeys_from_spec() -> bool {
        true
    }

    open spec fn from_spec(s: String) -> VariantKey {
        VariantKey(s)
    }
}

/// A metadata tag of a phrase, such as `masc`, `fem` or `an`.
#[derive(Debug, Clone)]
pub struct Tag(pub String);

impl View for Tag {
    type V = Seq<char>;

    open spec fn view(&self) -> Seq<char> {
        self.0@
    }
}

impl Tag {
    /// Creates a tag from a string.
    pub fn new(s: &str) -> (r: Tag)
        ensures
            r@ == s@,
    {
        Tag(crate::text::to_string(s))
    }

    /// The tag as a string slice.
    pub fn as_str(&self) -> (r: &str)
        ensures
            r@ == self@,
    {
        self.0.as_str()
    }

    /// A copy of this tag.
    pub fn duplicate(&self) -> (r: Tag)
        ensures
            r@ == self@,
    {
        Tag(self.0.clone())
    }
}

// ---------------------------------------------------------------------------
// Phrase
// ---------------------------------------------------------------------------

/// The contents of a phrase: its default text, its variants (key and text,
/// the first entry for a key being the one that counts) and its tags.
pub struct PhraseModel {
    pub text: Seq<char>,
    pub variants: Seq<(Seq<char>, Seq<char>)>,
    pub tags: Seq<Seq<char>>,
}

/// A localized phrase: default text, variants for grammatical forms, and
/// metadata tags.
#[derive(Debug, Clone)]
pub struct Phrase {
    /// Default text when the phrase is displayed.
    pub text: String,
    /// Variant key to variant text; for a key that occurs more than once
    /// the first entry counts.
    pub variants: Vec<(VariantKey, String)>,
    /// Metadata tags attached to this phrase.
    pub tags: Vec<Tag>,
}

pub open spec fn entries_view(vs: Seq<(VariantKey, String)>) -> Seq<(Seq<char>, Seq<char>)> {
    vs.map_values(|e: (VariantKey, String)| (e.0@, e.1@))
}

pub open spec fn tags_view(ts: Seq<Tag>) -> Seq<Seq<char>> {
    ts.map_values(|t: Tag| t@)
}

impl View for Phrase {
    type V = PhraseModel;

    open spec fn view(&self) -> PhraseModel {
        PhraseModel { text: self.text@, variants: entries_view(self.variants@), tags: tags_view(self.tags@) }
    }
}

/// The text of the first variant entry with key `k`.
pub open spec fn lookup(es: Seq<(Seq<char>, Seq<char>)>, k: Seq<char>) -> Option<Seq<char>>
    decreases es.len(),
{
    if es.len() == 0 {
        None
    } else if es[0].0 == k {
        Some(es[0].1)
    } else {
        lookup(es.drop_first(), k)
    }
}

/// Position of the last `.` in `k`.
pub open spec fn last_dot(k: Seq<char>) -> Option<int>
    decreases k.len(),
{
    if k.len() == 0 {
        None
    } else if k.last() == '.' {
        Some(k.len() - 1)
    } else {
        last_dot(k.drop_last())
    }
}

pub proof fn lemma_last_dot(k: Seq<char>)
    ensures
        last_dot(k) matches Some(d) ==> 0 <= d < k.len() && k[d] == '.',
        last_dot(k) is None ==> forall|i: int| 0 <= i < k.len() ==> k[i] != '.',
    decreases k.len(),
{
    if k.len() > 0 && k.last() != '.' {
        lemma_last_dot(k.drop_last());
        assert forall|i: int| 0 <= i < k.len() - 1 implies k[i] == k.drop_last()[i] by {}
    }
}

/// Variant lookup with fallback: the exact key, then the key with its last
/// `.segment` removed, and so on.
pub open spec fn resolve_variant(es: Seq<(Seq<char>, Seq<char>)>, k: Seq<char>) -> Option<Seq<char>>
    decreases k.len(),
{
    match lookup(es, k) {
        Some(v) => Some(v),
        None => match last_dot(k) {
            None => None,
            Some(d) => {
                proof {
                    lemma_last_dot(k);
                }
                resolve_variant(es, k.take(d))
            },
        },
    }
}

/// Looks up the first variant with the given key.
pub fn find_variant<'a>(vs: &'a Vec<(VariantKey, String)>, key: &[char]) -> (r: Option<&'a String>)
    ensures
        match r {
            None => lookup(entries_view(vs@), key@) is None,
            Some(v) => lookup(entries_view(vs@), key@) == Some(v@),
        },
{
    let mut i: usize = 0;
    assert(entries_view(vs@).skip(0) =~= entries_view(vs@));
    while i < vs.len()
        invariant
            i <= vs.len(),
            lookup(entries_view(vs@), key@) == lookup(entries_view(vs@).skip(i as int), key@),
        decreases vs.len() - i,
    {
        let ghost rest = entries_view(vs@).skip(i as int);
        assert(rest[0] == (vs@[i as int].0@, vs@[i as int].1@));
        assert(rest.drop_first() =~= entries_view(vs@).skip(i as int + 1));
        let k = crate::text::chars_of(vs[i].0.as_str());
        if crate::text::chars_eq(&k, key) {
            return Some(&vs[i].1);
        }
        i = i + 1;
    }
    assert(entries_view(vs@).skip(i as int) =~= Seq::<(Seq<char>, Seq<char>)>::empty());
    None
}

/// Position of the last `.` in a key.
pub fn rfind_dot(k: &[char]) -> (r: Option<usize>)
    ensures
        match r {
            None => last_dot(k@) is None,
            Some(d) => last_dot(k@) == Some(d as int),
        },
{
    let mut j = k.len();
    assert(k@.take(j as int) =~= k@);
    while j > 0
        invariant
            j <= k.len(),
            last_dot(k@) == last_dot(k@.take(j as int)),
        decreases j,
    {
        assert(k@.take(j as int).drop_last() =~= k@.take(j as int - 1));
        if k[j - 1] == '.' {
            return Some(j - 1);
        }
        j = j - 1;
    }
    None
}

/// Variant lookup with fallback through shorter keys.
pub fn resolve_variant_exec<'a>(vs: &'a Vec<(VariantKey, String)>, key: &[char]) -> (r: Option<
    &'a String,
>)
    ensures
        match r {
            None => resolve_variant(entries_view(vs@), key@) is None,
            Some(v) => resolve_variant(entries_view(vs@), key@) == Some(v@),
        },
{
    let mut current = crate::text::slice_range(key, 0, key.len());
    assert(current@ =~= key@);
    loop
        invariant
            resolve_variant(entries_view(vs@), key@) == resolve_variant(entries_view(vs@), current@),
        decreases current@.len(),
    {
        if let Some(v) = find_variant(vs, &current) {
            return Some(v);
        }
        match rfind_dot(&current) {
            None => return None,
            Some(d) => {
                proof {
                    lemma_last_dot(current@);
                }
                let next = crate::text::slice_range(&current, 0, d);
                assert(next@ =~= current@.take(d as int));
                current = next;
            },
        }
    }
}

pub fn copy_variants(vs: &Vec<(VariantKey, String)>) -> (r: Vec<(VariantKey, String)>)
    ensures
        entries_view(r@) == entries_view(vs@),
{
    let mut r: Vec<(VariantKey, String)> = Vec::new();
    let mut i: usize = 0;
    while i < vs.len()
        invariant
            i <= vs.len(),
            entries_view(r@) == entries_view(vs@).take(i as int),
        decreases vs.len() - i,
    {
        let ghost old_r = entries_view(r@);
        r.push((vs[i].0.duplicate(), vs[i].1.clone()));
        assert(entries_view(r@) =~= old_r.push((vs@[i as int].0@, vs@[i as int].1@)));
        assert(entries_view(vs@).take(i as int + 1) =~= entries_view(vs@).take(i as int).push(
            (vs@[i as int].0@, vs@[i as int].1@),
        ));
        i = i + 1;
    }
    assert(entries_view(vs@).take(vs.len() as int) =~= entries_view(vs@));
    r
}

pub fn copy_tags(ts: &Vec<Tag>) -> (r: Vec<Tag>)
    ensures
        tags_view(r@) == tags_view(ts@),
{
    let mut r: Vec<Tag> = Vec::new();
    let mut i: usize = 0;
    while i < ts.len()
        invariant
            i <= ts.len(),
            tags_view(r@) == tags_view(ts@).take(i as int),
        decreases ts.len() - i,
    {
        let ghost old_r = tags_view(r@);
        r.push(ts[i].duplicate());
        assert(tags_view(r@) =~= old_r.push(ts@[i as int]@));
        assert(tags_view(ts@).take(i as int + 1) =~= tags_view(ts@).take(i as int).push(
            ts@[i as int]@,
        ));
        i = i + 1;
    }
    assert(tags_view(ts@).take(ts.len() as int) =~= tags_view(ts@));
    r
}

/// Whether a tag list holds a tag equal to `tag`.
pub fn tags_contain(ts: &Vec<Tag>, tag: &str) -> (r: bool)
    ensures
        r == tags_view(ts@).contains(tag@),
{
    let t = crate::text::chars_of(tag);
    let mut i: usize = 0;
    while i < ts.len()
        invariant
            i <= ts.len(),
            t@ == tag@,
            forall|k: int| 0 <= k < i ==> tags_view(ts@)[k] != tag@,
        decreases ts.len() - i,
    {
        let c = crate::text::chars_of(ts[i].as_str());
        if crate::text::chars_eq(&c, &t) {
            assert(tags_view(ts@)[i as int] == tag@);
            return true;
        }
        i = i + 1;
    }
    false
}

/// Whether every phrase has a variant with key `k`.
pub open spec fn in_all(ps: Seq<PhraseModel>, k: Seq<char>) -> bool {
    forall|j: int| 0 <= j < ps.len() ==> #[trigger] lookup(ps[j].variants, k) is Some
}

/// The texts of key `k` in each phrase.
pub open spec fn texts_for(ps: Seq<PhraseModel>, k: Seq<char>) -> Seq<Seq<char>> {
    ps.map_values(|p: PhraseModel| lookup(p.variants, k)->0)
}

/// For the entries `es` (in order), those whose key every phrase has, with
/// the texts of that key in all phrases joined by `sep`.
pub open spec fn shared_from(ps: Seq<PhraseModel>, sep: Seq<char>, es: Seq<(Seq<char>, Seq<char>)>) -> Seq<
    (Seq<char>, Seq<char>),
>
    decreases es.len(),
{
    if es.len() == 0 {
        seq![]
    } else {
        let prev = shared_from(ps, sep, es.drop_last());
        let e = es.last();
        if in_all(ps, e.0) {
            prev.push((e.0, join(texts_for(ps, e.0), sep)))
        } else {
            prev
        }
    }
}

/// Variants of joined phrases: for each variant of the first phrase whose key
/// all the phrases have, that key with the joined texts.
pub open spec fn shared_variants(ps: Seq<PhraseModel>, sep: Seq<char>) -> Seq<(Seq<char>, Seq<char>)> {
    shared_from(ps, sep, ps[0].variants)
}

impl Phrase {
    /// A phrase with no text, variants or tags.
    pub fn empty() -> (r: Phrase)
        ensures
            r@.text.len() == 0,
            r@.variants.len() == 0,
            r@.tags.len() == 0,
    {
        let r = Phrase { text: String::new(), variants: Vec::new(), tags: Vec::new() };
        assert(r@.variants =~= Seq::<(Seq<char>, Seq<char>)>::empty());
        assert(r@.tags =~= Seq::<Seq<char>>::empty());
        r
    }

    /// A phrase with the given text and no variants or tags.
    pub fn from_text(text: String) -> (r: Phrase)
        ensures
            r@.text == text@,
            r@.variants.len() == 0,
            r@.tags.len() == 0,
    {
        let r = Phrase { text, variants: Vec::new(), tags: Vec::new() };
        assert(r@.variants =~= Seq::<(Seq<char>, Seq<char>)>::empty());
        assert(r@.tags =~= Seq::<Seq<char>>::empty());
        r
    }

    /// A copy of this phrase.
    pub fn duplicate(&self) -> (r: Phrase)
        ensures
            r@ == self@,
    {
        Phrase {
            text: self.text.clone(),
            variants: copy_variants(&self.variants),
            tags: copy_tags(&self.tags),
        }
    }

    /// Transforms this phrase's text with `f`, keeping tags and variants.
    pub fn map_text<F: FnOnce(String) -> String>(self, f: F) -> (r: Phrase)
        requires
            call_requires(f, (self.text,)),
        ensures
            call_ensures(f, (self.text,), r.text),
            r@.variants == self@.variants,
            r@.tags == self@.tags,
    {
        let Phrase { text, variants, tags } = self;
        let new_text = f(text);
        Phrase { text: new_text, variants, tags }
    }

    /// The variant for `key`, falling back to shorter keys by removing the
    /// last `.segment` (`nom.one` → `nom`). A missing variant is a
    /// programming error in the definitions; callers must not ask for one.
    pub fn variant(&self, key: &str) -> (r: &str)
        requires
            resolve_variant(self@.variants, key@) is Some,
        ensures
            resolve_variant(self@.variants, key@) == Some(r@),
    {
        let k = crate::text::chars_of(key);
        match resolve_variant_exec(&self.variants, &k) {
            Some(v) => v.as_str(),
            None => {
                assert(false);
                self.text.as_str()
            },
        }
    }

    /// Whether this phrase has the given tag.
    pub fn has_tag(&self, tag: &str) -> (r: bool)
        ensures
            r == self@.tags.contains(tag@),
    {
        tags_contain(&self.tags, tag)
    }

    /// The first tag, if any.
    pub fn first_tag(&self) -> (r: Option<&Tag>)
        ensures
            match r {
                None => self@.tags.len() == 0,
                Some(t) => self@.tags.len() > 0 && t@ == self@.tags[0],
            },
    {
        if self.tags.len() == 0 {
            None
        } else {
            Some(&self.tags[0])
        }
    }

    /// Joins phrases with a separator: the texts are joined, and so are the
    /// variants whose key every phrase has (in the first phrase's order).
    /// Tags are not kept. Returns an empty phrase for no phrases.
    pub fn join(phrases: &[Phrase], separator: &str) -> (r: Phrase)
        ensures
            phrases@.len() == 0 ==> r@.text.len() == 0 && r@.variants.len() == 0,
            phrases@.len() > 0 ==> r@.text == join(
                phrases@.map_values(|p: Phrase| p@.text),
                separator@,
            ) && r@.variants == shared_variants(
                phrases@.map_values(|p: Phrase| p@),
                separator@,
            ),
            r@.tags.len() == 0,
    {
        if phrases.len() == 0 {
            return Phrase::empty();
        }
        let sep = crate::text::chars_of(separator);
        let ghost ps = phrases@.map_values(|p: Phrase| p@);
        // Default texts.
        let mut texts: Vec<Vec<char>> = Vec::new();
        let mut i: usize = 0;
        while i < phrases.len()
            invariant
                i <= phrases.len(),
                texts.deep_view() == phrases@.map_values(|p: Phrase| p@.text).take(i as int),
            decreases phrases.len() - i,
        {
            let t = crate::text::chars_of(phrases[i].text.as_str());
            let ghost old_t = texts.deep_view();
            assert(t.deep_view() =~= t@);
            texts.push(t);
            assert(texts.deep_view() =~~= old_t.push(phrases@[i as int]@.text));
            assert(phrases@.map_values(|p: Phrase| p@.text).take(i as int + 1)
                =~= phrases@.map_values(|p: Phrase| p@.text).take(i as int).push(
                phrases@[i as int]@.text,
            ));
            i = i + 1;
        }
        assert(phrases@.map_values(|p: Phrase| p@.text).take(phrases.len() as int)
            =~= phrases@.map_values(|p: Phrase| p@.text));
        let text = crate::text::join_chars(&texts, &sep);
        // Variants shared by every phrase.
        let first = &phrases[0].variants;
        let mut variants: Vec<(VariantKey, String)> = Vec::new();
        let mut k: usize = 0;
        while k < first.len()
            invariant
                k <= first.len(),
                phrases@.len() > 0,
                first == phrases@[0].variants,
                ps == phrases@.map_values(|p: Phrase| p@),
                entries_view(variants@) == shared_from(ps, sep@, entries_view(first@).take(k as int)),
            decreases first.len() - k,
        {
            let key = crate::text::chars_of(first[k].0.as_str());
            let ghost e = entries_view(first@)[k as int];
            assert(e.0 == key@);
            assert(entries_view(first@).take(k as int + 1).drop_last() =~= entries_view(first@).take(
                k as int,
            ));
            // Collect this key's text from every phrase, or stop at a phrase
            // that lacks it.
            let mut parts: Vec<Vec<char>> = Vec::new();
            let mut j: usize = 0;
            let mut all = true;
            while j < phrases.len() && all
                invariant
                    j <= phrases.len(),
                    ps == phrases@.map_values(|p: Phrase| p@),
                    all ==> forall|m: int| 0 <= m < j ==> #[trigger] lookup(ps[m].variants, key@) is Some,
                    all ==> parts.deep_view() == texts_for(ps, key@).take(j as int),
                    !all ==> !in_all(ps, key@),
                decreases phrases.len() - j,
            {
                assert(ps[j as int] == phrases@[j as int]@);
                match find_variant(&phrases[j].variants, &key) {
                    None => {
                        assert(lookup(ps[j as int].variants, key@) is None);
                        all = false;
                    },
                    Some(v) => {
                        let vc = crate::text::chars_of(v.as_str());
                        assert(vc.deep_view() =~= vc@);
                        let ghost old_parts = parts.deep_view();
                        parts.push(vc);
                        assert(parts.deep_view() =~~= old_parts.push(vc@));
                        assert(texts_for(ps, key@).take(j as int + 1) =~= texts_for(ps, key@).take(
                            j as int,
                        ).push(texts_for(ps, key@)[j as int]));
                    },
                }
                j = j + 1;
            }
            let ghost prev = entries_view(first@).take(k as int);
            let ghost old_v = entries_view(variants@);
            assert(entries_view(first@).take(k as int + 1).last() == e);
            if all {
                assert(in_all(ps, key@));
                assert(texts_for(ps, key@).take(phrases.len() as int) =~= texts_for(ps, key@));
                let jt = crate::text::join_chars(&parts, &sep);
                variants.push((VariantKey(crate::text::string_of(&key)), crate::text::string_of(&jt)));
                assert(entries_view(variants@) =~= old_v.push((key@, jt@)));
            }
            k = k + 1;
        }
        assert(entries_view(first@).take(first.len() as int) =~= entries_view(first@));
        let r = Phrase { text: crate::text::string_of(&text), variants, tags: Vec::new() };
        assert(r@.tags =~= Seq::<Seq<char>>::empty());
        assert(ps[0].variants == entries_view(first@));
        r
    }
}

// ---------------------------------------------------------------------------
// Value
// ---------------------------------------------------------------------------

/// The contents of a value.
pub enum ValueModel {
    Number(i64),
    Float(Seq<char>, i64),
    Str(Seq<char>),
    Phrase(PhraseModel),
}

/// A runtime value passed as a parameter to phrases.
#[derive(Debug, Clone)]
pub enum Value {
    /// An integer number (used for plural selection).
    Number(i64),
    /// A floating-point number, held as its display text and its value
    /// truncated toward zero (what `as i64` gives).
    Float { text: String, truncated: i64 },
    /// A string value.
    String(String),
    /// A phrase value (carries variants and tags).
    Phrase(Phrase),
}

impl View for Value {
    type V = ValueModel;

    open spec fn view(&self) -> ValueModel {
        match self {
            Value::Number(n) => ValueModel::Number(*n),
            Value::Float { text, truncated } => ValueModel::Float(text@, *truncated),
            Value::String(s) => ValueModel::Str(s@),
            Value::Phrase(p) => ValueModel::Phrase(p@),
        }
    }
}

/// The text a value displays as.
pub open spec fn value_text(v: ValueModel) -> Seq<char> {
    match v {
        ValueModel::Number(n) => int_decimal(n as int),
        ValueModel::Float(t, _) => t,
        ValueModel::Str(s) => s,
        ValueModel::Phrase(p) => p.text,
    }
}

/// Whether a value is a phrase that has the tag `t`.
pub open spec fn value_has_tag(v: ValueModel, t: Seq<char>) -> bool {
    match v {
        ValueModel::Phrase(p) => p.tags.contains(t),
        _ => false,
    }
}

impl From<Phrase> for String {
    fn from(p: Phrase) -> (r: String) {
        p.text
    }
}

impl vstd::std_specs::convert::FromSpecImpl<Phrase> for String {
    open spec fn obeys_from_spec() -> bool {
        true
    }

    open spec fn from_spec(p: Phrase) -> String {
        p.text
    }
}

// Conversions: integers become numbers (a value beyond the range of `i64`
// wraps, as `as i64` does), strings and phrases are held as they are.

impl From<i64> for Value {
    fn from(n: i64) -> (r: Value) {
        Value::Number(n)
    }
}

impl vstd::std_specs::convert::FromSpecImpl<i64> for Value {
    open spec fn obeys_from_spec() -> bool {
        true
    }

    open spec fn from_spec(n: i64) -> Value {
        Value::Number(n)
    }
}

impl From<i32> for Value {
    fn from(n: i32) -> (r: Value) {
        Value::Number(n as i64)
    }
}

impl vstd::std_specs::convert::FromSpecImpl<i32> for Value {
    open spec fn obeys_from_spec() -> bool {
        true
    }

    open spec fn from_spec(n: i32) -> Value {
        Value::Number(n as i64)
    }
}

impl From<u32> for Value {
    fn from(n: u32) -> (r: Value) {
        Value::Number(n as i64)
    }
}

impl vstd::std_specs::convert::FromSpecImpl<u32> for Value {
    open spec fn obeys_from_spec() -> bool {
        true
    }

    open spec fn from_spec(n: u32) -> Value {
        Value::Number(n as i64)
    }
}

impl From<u64> for Value {
    fn from(n: u64) -> (r: Value) {
        Value::Number(n as i64)
    }
}

impl vstd::std_specs::convert::FromSpecImpl<u64> for Value {
    open spec fn obeys_from_spec() -> bool {
        true
    }

    open spec fn from_spec(n: u64) -> Value {
        Value::Number(n as i64)
    }
}

impl From<usize> for Value {
    fn from(n: usize) -> (r: Value) {
        Value::Number(n as i64)
    }
}

impl vstd::std_specs::convert::FromSpecImpl<usize> for Value {
    open spec fn obeys_from_spec() -> bool {
        true
    }

    open spec fn from_spec(n: usize) -> Value {
        Value::Number(n as i64)
    }
}

impl From<String> for Value {
    fn from(n: String) -> (r: Value) {
        Value::String(n)
    }
}

impl vstd::std_specs::convert::FromSpecImpl<String> for Value {
    open spec fn obeys_from_spec() -> bool {
        true
    }

    open spec fn from_spec(n: String) -> Value {
        Value::String(n)
    }
}

impl From<Phrase> for Value {
    fn from(n: Phrase) -> (r: Value) {
        Value::Phrase(n)
    }
}

impl vstd::std_specs::convert::FromSpecImpl<Phrase> for Value {
    open spec fn obeys_from_spec() -> bool {
        true
    }

    open spec fn from_spec(n: Phrase) -> Value {
        Value::Phrase(n)
    }
}

impl Value {
    /// This value as a number, if it is one.
    pub fn as_number(&self) -> (r: Option<i64>)
        ensures
            r == match self@ {
                ValueModel::Number(n) => Some(n),
                _ => None::<i64>,
            },
    {
        match self {
            Value::Number(n) => Some(*n),
            _ => None,
        }
    }

    /// This value as a string, if it is one.
    pub fn as_string(&self) -> (r: Option<&str>)
        ensures
            match r {
                Some(s) => self@ == ValueModel::Str(s@),
                None => !(self@ is Str),
            },
    {
        match self {
            Value::String(s) => Some(s.as_str()),
            _ => None,
        }
    }

    /// This value as a phrase, if it is one.
    pub fn as_phrase(&self) -> (r: Option<&Phrase>)
        ensures
            match r {
                Some(p) => self@ == ValueModel::Phrase(p@),
                None => !(self@ is Phrase),
            },
    {
        match self {
            Value::Phrase(p) => Some(p),
            _ => None,
        }
    }

    /// Whether this value is a phrase with the given tag.
    pub fn has_tag(&self, tag: &str) -> (r: bool)
        ensures
            r == value_has_tag(self@, tag@),
    {
        match self {
            Value::Phrase(p) => p.has_tag(tag),
            _ => false,
        }
    }

    /// The variant `key` of this value if it is a phrase (with the phrase's
    /// fallback through shorter keys, which must find one).
    pub fn get_variant(&self, key: &str) -> (r: Option<&str>)
        requires
            self@ matches ValueModel::Phrase(p) ==> resolve_variant(p.variants, key@) is Some,
        ensures
            match self@ {
                ValueModel::Phrase(p) => r matches Some(s) && resolve_variant(p.variants, key@)
                    == Some(s@),
                _ => r is None,
            },
    {
        match self {
            Value::Phrase(p) => Some(p.variant(key)),
            _ => None,
        }
    }

    /// The text this value displays as.
    pub fn display(&self) -> (r: String)
        ensures
            r@ == value_text(self@),
    {
        match self {
            Value::Number(n) => crate::text::i64_to_decimal(*n),
            Value::Float { text, .. } => text.clone(),
            Value::String(s) => s.clone(),
            Value::Phrase(p) => p.text.clone(),
        }
    }

    /// A copy of this value.
    pub fn duplicate(&self) -> (r: Value)
        ensures
            r@ == self@,
    {
        match self {
            Value::Number(n) => Value::Number(*n),
            Value::Float { text, truncated } => Value::Float { text: text.clone(), truncated: *truncated },
            Value::String(s) => Value::String(s.clone()),
            Value::Phrase(p) => Value::Phrase(p.duplicate()),
        }
    }
}

// ---------------------------------------------------------------------------
// PhraseId
// ---------------------------------------------------------------------------

pub open spec fn fnv_offset() -> u64 {
    0xcbf29ce484222325u64
}

pub open spec fn fnv_prime() -> u64 {
    0x100000001b3u64
}

/// 64-bit FNV-1a hash of a byte sequence: start from the offset basis; for
/// each byte, xor it in and multiply by the prime modulo 2^64.
pub open spec fn fnv1a_64(bytes: Seq<u8>) -> u64
    decreases bytes.len(),
{
    if bytes.len() == 0 {
        fnv_offset()
    } else {
        let h = fnv1a_64(bytes.drop_last()) ^ (bytes.last() as u64);
        ((h as int * fnv_prime() as int) % 0x1_0000_0000_0000_0000int) as u64
    }
}

/// `const_fnv1a_hash::fnv1a_hash_str_64`: the 64-bit FNV-1a hash of the
/// string's UTF-8 bytes.
#[verifier::external_body]
fn fnv1a_hash_str(name: &str) -> (r: u64)
    ensures
        r == fnv1a_64(name.spec_bytes()),
{
    const_fnv1a_hash::fnv1a_hash_str_64(name)
}

/// A compact identifier for a phrase: the 64-bit FNV-1a hash of its name.
#[derive(Debug, Clone, Copy)]
pub struct PhraseId(pub u64);

impl PhraseId {
    /// The id of the phrase with the given name.
    pub fn from_name(name: &str) -> (r: PhraseId)
        ensures
            r.0 == fnv1a_64(name.spec_bytes()),
    {
        PhraseId(fnv1a_hash_str(name))
    }

    /// The raw hash value.
    pub fn as_u64(&self) -> (r: u64)
        ensures
            r == self.0,
    {
        self.0
    }

    /// The display form: `PhraseId(` and the hash as 16 lowercase hex
    /// digits, then `)`.
    pub fn display(&self) -> (r: String)
        ensures
            r@ == "PhraseId("@ + hex_fixed(self.0 as nat, 16) + ")"@,
    {
        let digits = hex16(self.0);
        let mut r = crate::text::to_string("PhraseId(");
        crate::text::push_str(&mut r, crate::text::string_of(digits.as_slice()).as_str());
        crate::text::push_str(&mut r, ")");
        r
    }
}

/// The lowercase hex digits.
pub open spec fn hex_digit(d: nat) -> char {
    seq!['0', '1', '2', '3', '4', '5', '6', '7', '8', '9', 'a', 'b', 'c', 'd', 'e', 'f'][d as int]
}

/// The last `k` hex digits of `n`, most significant first.
pub open spec fn hex_fixed(n: nat, k: nat) -> Seq<char>
    decreases k,
{
    if k == 0 {
        seq![]
    } else {
        hex_fixed(n / 16, (k - 1) as nat).push(hex_digit(n % 16))
    }
}

fn hex_digit_exec(d: u64) -> (r: char)
    requires
        d < 16,
    ensures
        r == hex_digit(d as nat),
{
    let digits = ['0', '1', '2', '3', '4', '5', '6', '7', '8', '9', 'a', 'b', 'c', 'd', 'e', 'f'];
    let r = digits[d as usize];
    assert(digits@ =~= seq!['0', '1', '2', '3', '4', '5', '6', '7', '8', '9', 'a', 'b', 'c', 'd', 'e', 'f']);
    r
}

/// The 16 hex digits of `n`.
fn hex16(n: u64) -> (r: Vec<char>)
    ensures
        r@ == hex_fixed(n as nat, 16),
{
    let mut out: Vec<char> = Vec::new();
    let mut v: u64 = n;
    let mut i: u64 = 0;
    while i < 16
        invariant
            i <= 16,
            hex_fixed(n as nat, 16) == hex_fixed(v as nat, (16 - i) as nat) + out@,
        decreases 16 - i,
    {
        let c = hex_digit_exec(v % 16);
        let ghost before = out@;
        out.insert(0, c);
        assert(out@ =~= seq![c] + before);
        assert(hex_fixed(v as nat, (16 - i) as nat) == hex_fixed((v / 16) as nat, (15 - i) as nat).push(c));
        assert(hex_fixed((v / 16) as nat, (15 - i) as nat).push(c) + before =~= hex_fixed((v / 16) as nat, (15 - i) as nat) + out@);
        v = v / 16;
        i = i + 1;
    }
    assert(hex_fixed(v as nat, 0) =~= seq![]);
    assert(seq![] + out@ =~= out@);
    out
}

} // verus!
