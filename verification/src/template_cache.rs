//! A cache of parsed templates, keyed by their source text.
use vstd::prelude::*;
use crate::ast::{SegmentModel, Template};
use crate::errors::{EvalError, EvalErrorModel};
use crate::parser::template::{parse_template, template_result};
use crate::text::{str_eq, to_string, push_str, int_decimal};

verus! {

pub open spec fn cache_view(v: Seq<(String, Template)>) -> Seq<(Seq<char>, Seq<SegmentModel>)> {
    v.map_values(|e: (String, Template)| (e.0@, e.1@))
}

/// Index of the cached template for a source text.
pub open spec fn cache_index(cache: Seq<(Seq<char>, Seq<SegmentModel>)>, s: Seq<char>) -> Option<int>
    decreases cache.len(),
{
    if cache.len() == 0 {
        None
    } else if cache[0].0 == s {
        Some(0)
    } else {
        match cache_index(cache.drop_first(), s) {
            Some(i) => Some(i + 1),
            None => None,
        }
    }
}

/// Every cached template is what its source text parses to, and each source
/// text is cached once.
pub open spec fn cache_sound(cache: Seq<(Seq<char>, Seq<SegmentModel>)>) -> bool {
    &&& forall|i: int|
        0 <= i < cache.len() ==> template_result(#[trigger] cache[i].0) == Ok::<
            Seq<SegmentModel>,
            (nat, nat, Seq<char>),
        >(cache[i].1)
    &&& forall|i: int, j: int| 0 <= i < j < cache.len() ==> #[trigger] cache[i].0 != #[trigger] cache[j].0
}

/// The error for a template that does not parse.
pub open spec fn template_error_name(l: nat, c: nat, msg: Seq<char>) -> Seq<char> {
    "parse error: "@ + ("syntax error at "@ + int_decimal(l as int) + ":"@ + int_decimal(c as int) + ": "@ + msg)
}

/// The cache after looking up a source text: unchanged where it is cached
/// or does not parse, else with its parse added at the end.
pub open spec fn cache_after(cache: Seq<(Seq<char>, Seq<SegmentModel>)>, s: Seq<char>) -> Seq<(Seq<char>, Seq<SegmentModel>)> {
    match (template_result(s), cache_index(cache, s)) {
        (Ok(t), None) => cache.push((s, t)),
        _ => cache,
    }
}

/// Parsed templates by source text.
pub struct TemplateCache {
    entries: Vec<(String, Template)>,
}

impl View for TemplateCache {
    type V = Seq<(Seq<char>, Seq<SegmentModel>)>;

    closed spec fn view(&self) -> Seq<(Seq<char>, Seq<SegmentModel>)> {
        cache_view(self.entries@)
    }
}

impl TemplateCache {
    #[verifier::type_invariant]
    spec fn sound(&self) -> bool {
        cache_sound(cache_view(self.entries@))
    }

    /// An empty cache.
    pub fn new() -> (r: TemplateCache)
        ensures
            r@.len() == 0,
    {
        let r = TemplateCache { entries: Vec::new() };
        assert(r@ =~= seq![]);
        r
    }

    /// How many templates are cached.
    pub fn len(&self) -> (r: usize)
        ensures
            r == self@.len(),
    {
        self.entries.len()
    }

    /// Empties the cache.
    pub fn clear(&mut self)
        ensures
            final(self)@.len() == 0,
    {
        self.entries = Vec::new();
        assert(self@ =~= seq![]);
    }

    /// The cached template at a position.
    pub fn template(&self, i: usize) -> (r: &Template)
        requires
            i < self@.len(),
        ensures
            r@ == self@[i as int].1,
    {
        &self.entries[i].1
    }

    /// Index of the cached template for `s`.
    fn position(&self, s: &str) -> (r: Option<usize>)
        ensures
            match r {
                Some(i) => cache_index(self@, s@) == Some(i as int) && i < self@.len(),
                None => cache_index(self@, s@) is None,
            },
    {
        let ghost cache = self@;
        let mut i: usize = 0;
        while i < self.entries.len()
            invariant
                i <= self.entries.len(),
                cache == cache_view(self.entries@),
                forall|k: int| #![auto] 0 <= k < i ==> cache[k].0 != s@,
            decreases self.entries.len() - i,
        {
            assert(cache[i as int].0 == self.entries@[i as int].0@);
            if str_eq(self.entries[i].0.as_str(), s) {
                proof {
                    lemma_cache_index_first(cache, s@, i as int);
                }
                return Some(i);
            }
            i = i + 1;
        }
        proof {
            lemma_cache_index_absent(cache, s@);
        }
        None
    }

    /// The position of the parsed template for `s`, parsing and caching it
    /// where it is not cached yet.
    pub fn fetch(&mut self, s: &str) -> (r: Result<usize, EvalError>)
        ensures
            final(self)@ == cache_after(old(self)@, s@),
            match template_result(s@) {
                Err((l, c, msg)) => r matches Err(e) && e@ == EvalErrorModel::PhraseNotFound(template_error_name(l, c, msg)),
                Ok(t) => r matches Ok(i) && i < final(self)@.len() && final(self)@[i as int].1 == t,
            },
    {
        proof {
            use_type_invariant(&*self);
        }
        let ghost c0 = self@;
        match self.position(s) {
            Some(i) => {
                proof {
                    lemma_cache_index_found(c0, s@);
                }
                return Ok(i);
            },
            None => {},
        }
        let template = match parse_template(s) {
            Ok(t) => t,
            Err(e) => {
                let mut name = to_string("parse error: ");
                push_str(&mut name, e.message().as_str());
                return Err(EvalError::PhraseNotFound { name });
            },
        };
        proof {
            lemma_cache_index_none(c0, s@);
        }
        let key = to_string(s);
        let ghost entry = (key@, template@);
        let mut entries = Vec::new();
        std::mem::swap(&mut entries, &mut self.entries);
        entries.push((key, template));
        assert(cache_view(entries@) =~= c0.push(entry));
        assert(cache_sound(cache_view(entries@))) by {
            let cv = cache_view(entries@);
            assert forall|i: int, j: int| 0 <= i < j < cv.len() implies #[trigger] cv[i].0 != #[trigger] cv[j].0 by {
                if j == c0.len() {
                    assert(c0[i].0 != s@);
                } else {
                    assert(cv[i] == c0[i] && cv[j] == c0[j]);
                }
            }
        }
        self.entries = entries;
        Ok(self.entries.len() - 1)
    }
}

pub(crate) proof fn lemma_cache_index_push(cache: Seq<(Seq<char>, Seq<SegmentModel>)>, e: (Seq<char>, Seq<SegmentModel>), s: Seq<char>)
    requires
        cache_index(cache, s) is None,
    ensures
        cache_index(cache.push(e), s) == if e.0 == s {
            Some(cache.len() as int)
        } else {
            None::<int>
        },
    decreases cache.len(),
{
    if cache.len() > 0 {
        assert(cache[0].0 != s);
        assert(cache_index(cache.drop_first(), s) is None);
        assert(cache.push(e).drop_first() =~= cache.drop_first().push(e));
        assert(cache.push(e)[0] == cache[0]);
        lemma_cache_index_push(cache.drop_first(), e, s);
        assert(cache_index(cache.push(e), s) == match cache_index(cache.drop_first().push(e), s) {
            Some(i) => Some(i + 1),
            None => None::<int>,
        });
    } else {
        assert(cache.push(e).drop_first() =~= Seq::<(Seq<char>, Seq<SegmentModel>)>::empty());
        assert(cache_index(Seq::<(Seq<char>, Seq<SegmentModel>)>::empty(), s) is None);
        assert(cache.push(e)[0] == e);
    }
}

proof fn lemma_cache_index_none(cache: Seq<(Seq<char>, Seq<SegmentModel>)>, s: Seq<char>)
    requires
        cache_index(cache, s) is None,
    ensures
        forall|i: int| 0 <= i < cache.len() ==> #[trigger] cache[i].0 != s,
    decreases cache.len(),
{
    if cache.len() > 0 {
        lemma_cache_index_none(cache.drop_first(), s);
        assert forall|i: int| 0 <= i < cache.len() implies #[trigger] cache[i].0 != s by {
            if i > 0 {
                assert(cache.drop_first()[i - 1] == cache[i]);
            }
        }
    }
}

proof fn lemma_cache_index_first(cache: Seq<(Seq<char>, Seq<SegmentModel>)>, s: Seq<char>, i: int)
    requires
        0 <= i < cache.len(),
        cache[i].0 == s,
        forall|k: int| #![auto] 0 <= k < i ==> cache[k].0 != s,
    ensures
        cache_index(cache, s) == Some(i),
    decreases i,
{
    if i > 0 {
        lemma_cache_index_first(cache.drop_first(), s, i - 1);
    }
}

proof fn lemma_cache_index_absent(cache: Seq<(Seq<char>, Seq<SegmentModel>)>, s: Seq<char>)
    requires
        forall|k: int| #![auto] 0 <= k < cache.len() ==> cache[k].0 != s,
    ensures
        cache_index(cache, s) is None,
    decreases cache.len(),
{
    if cache.len() > 0 {
        lemma_cache_index_absent(cache.drop_first(), s);
    }
}

proof fn lemma_cache_index_found(cache: Seq<(Seq<char>, Seq<SegmentModel>)>, s: Seq<char>)
    requires
        cache_index(cache, s) is Some,
    ensures
        0 <= cache_index(cache, s)->Some_0 < cache.len(),
        cache[cache_index(cache, s)->Some_0].0 == s,
    decreases cache.len(),
{
    if cache[0].0 != s {
        lemma_cache_index_found(cache.drop_first(), s);
    }
}

} // verus!
