//! The label store: class-index to display-name mapping.
//!
//! The store holds at most one loaded label list.  While none is loaded it
//! serves a fixed fallback table extended with synthetic `class_<i>` names
//! up to the minimum classification class count.  Loading parses plain
//! text, one label per line, with blank lines ignored and each line
//! trimmed of surrounding whitespace.

use crate::constants::MIN_CLASSIFICATION_CLASSES;
use crate::errors::{InferenceError, InferenceResult};
use crate::text::{
    class_label_spec, class_label_string, is_space, is_space_char, lemma_trim_of_bounds, trim_spec,
};
use vstd::prelude::*;
use vstd::string::{StrSliceExecFns, StringExecFns};

verus! {

/// Position of the first newline at or after `i`, or the length of `s`
/// when no newline follows.
pub open spec fn line_end(s: Seq<char>, i: int) -> int
    decreases s.len() - i,
{
    if i < 0 || i >= s.len() {
        s.len() as int
    } else if s[i] == '\n' {
        i
    } else {
        line_end(s, i + 1)
    }
}

/// `line_end` stays between its start position and the end of the text.
pub proof fn lemma_line_end_bounds(s: Seq<char>, i: int)
    requires
        0 <= i <= s.len(),
    ensures
        i <= line_end(s, i) <= s.len(),
    decreases s.len() - i,
{
    if i < s.len() && s[i] != '\n' {
        lemma_line_end_bounds(s, i + 1);
    }
}

/// A position `e` after which the first newline sits (or the end of text)
/// is exactly `line_end`.
pub proof fn lemma_line_end_at(s: Seq<char>, i: int, e: int)
    requires
        0 <= i <= e <= s.len(),
        forall|k: int| i <= k < e ==> #[trigger] s[k] != '\n',
        e < s.len() ==> s[e] == '\n',
    ensures
        line_end(s, i) == e,
    decreases e - i,
{
    if i < e {
        lemma_line_end_at(s, i + 1, e);
    }
}

/// The labels parsed from the text starting at position `i`: each
/// newline-separated segment is trimmed, and empty segments are dropped.
pub open spec fn parse_labels_from(s: Seq<char>, i: int) -> Seq<Seq<char>>
    decreases s.len() + 1 - i,
    via check_parse_labels_from_decreases
{
    if i > s.len() {
        Seq::empty()
    } else {
        let e = line_end(s, i);
        let seg = trim_spec(s.subrange(i, e));
        let rest = parse_labels_from(s, e + 1);
        if seg.len() > 0 {
            seq![seg] + rest
        } else {
            rest
        }
    }
}

#[via_fn]
proof fn check_parse_labels_from_decreases(s: Seq<char>, i: int) {
    if i <= s.len() {
        if i >= 0 {
            lemma_line_end_bounds(s, i);
        }
    }
}

/// All labels parsed from a label text.
pub open spec fn parse_labels(s: Seq<char>) -> Seq<Seq<char>> {
    parse_labels_from(s, 0)
}

/// Number of entries in the fixed fallback table.
pub const FALLBACK_LABEL_COUNT: usize = 15;

/// The label served for class `i` when no list has been loaded: a fixed
/// table for the first few classes, synthetic names beyond it.
pub open spec fn fallback_label(i: int) -> Seq<char> {
    if i == 0 {
        "tench"@
    } else if i == 1 {
        "goldfish"@
    } else if i == 2 {
        "great white shark"@
    } else if i == 3 {
        "tiger shark"@
    } else if i == 4 {
        "hammerhead"@
    } else if i == 5 {
        "electric ray"@
    } else if i == 6 {
        "stingray"@
    } else if i == 7 {
        "cock"@
    } else if i == 8 {
        "hen"@
    } else if i == 9 {
        "ostrich"@
    } else if i == 10 {
        "brambling"@
    } else if i == 11 {
        "goldfinch"@
    } else if i == 12 {
        "house finch"@
    } else if i == 13 {
        "junco"@
    } else if i == 14 {
        "indigo bunting"@
    } else {
        class_label_spec(i as nat)
    }
}

/// The full label list served while no list is loaded.
pub open spec fn default_labels() -> Seq<Seq<char>> {
    Seq::new(MIN_CLASSIFICATION_CLASSES as nat, |i: int| fallback_label(i))
}

/// The label resolved for `index` against an active list: the list entry
/// when the index is in range, a synthetic name otherwise.
pub open spec fn resolved_label(labels: Seq<Seq<char>>, index: int) -> Seq<char> {
    if 0 <= index < labels.len() {
        labels[index]
    } else {
        class_label_spec(index as nat)
    }
}

/// The fallback table entry for a small class index.
fn fallback_str(i: usize) -> (r: &'static str)
    requires
        i < FALLBACK_LABEL_COUNT,
    ensures
        r@ == fallback_label(i as int),
{
    if i == 0 {
        "tench"
    } else if i == 1 {
        "goldfish"
    } else if i == 2 {
        "great white shark"
    } else if i == 3 {
        "tiger shark"
    } else if i == 4 {
        "hammerhead"
    } else if i == 5 {
        "electric ray"
    } else if i == 6 {
        "stingray"
    } else if i == 7 {
        "cock"
    } else if i == 8 {
        "hen"
    } else if i == 9 {
        "ostrich"
    } else if i == 10 {
        "brambling"
    } else if i == 11 {
        "goldfinch"
    } else if i == 12 {
        "house finch"
    } else if i == 13 {
        "junco"
    } else {
        "indigo bunting"
    }
}

/// The store of class labels.  At most one loaded list is active; while
/// none is, the fallback table stands in.
pub struct LabelsManager {
    /// The loaded label list, if any.
    pub loaded: Option<Vec<String>>,
}

impl LabelsManager {
    /// The label list the store currently serves.
    pub open spec fn active_labels(self) -> Seq<Seq<char>> {
        match self.loaded {
            Some(l) => l.deep_view(),
            None => default_labels(),
        }
    }

    /// The store is well formed: a loaded list is never empty, so the
    /// active list never is either.
    pub open spec fn wf(self) -> bool {
        self.loaded matches Some(l) ==> l@.len() > 0
    }

    /// A fresh store with no loaded list.
    pub fn new() -> (r: Self)
        ensures
            r.loaded is None,
            r.active_labels() == default_labels(),
            r.wf(),
    {
        LabelsManager { loaded: None }
    }

    /// The active label list as owned strings: never empty for a
    /// well-formed store.
    pub fn get_labels(&self) -> (r: Vec<String>)
        ensures
            r.deep_view() == self.active_labels(),
            self.wf() ==> r@.len() > 0,
    {
        match &self.loaded {
            Some(l) => {
                let mut r: Vec<String> = Vec::new();
                let mut i: usize = 0;
                while i < l.len()
                    invariant
                        i <= l.len(),
                        r@.len() == i,
                        forall|j: int| 0 <= j < i ==> r@[j] == l@[j],
                    decreases l.len() - i,
                {
                    r.push(l[i].clone());
                    i += 1;
                }
                proof {
                    assert(r@ =~= l@);
                    assert(r.deep_view() =~= l.deep_view());
                }
                r
            },
            None => {
                let mut v: Vec<String> = Vec::new();
                let mut i: usize = 0;
                while i < FALLBACK_LABEL_COUNT
                    invariant
                        i <= FALLBACK_LABEL_COUNT,
                        v@.len() == i,
                        forall|j: int| 0 <= j < i ==> #[trigger] v@[j]@ == fallback_label(j),
                    decreases FALLBACK_LABEL_COUNT - i,
                {
                    v.push(fallback_str(i).to_owned());
                    i += 1;
                }
                while i < MIN_CLASSIFICATION_CLASSES
                    invariant
                        FALLBACK_LABEL_COUNT <= i <= MIN_CLASSIFICATION_CLASSES,
                        v@.len() == i,
                        forall|j: int| 0 <= j < i ==> #[trigger] v@[j]@ == fallback_label(j),
                    decreases MIN_CLASSIFICATION_CLASSES - i,
                {
                    v.push(class_label_string(i));
                    i += 1;
                }
                proof {
                    assert(v.deep_view() =~= default_labels());
                }
                v
            },
        }
    }

    /// Parse a label text and, when it holds at least one label, install
    /// the parsed list as the active one.  An empty result is rejected
    /// and leaves the active list unchanged.
    pub fn load_labels_from_content(&mut self, content: &str) -> (r: InferenceResult<usize>)
        ensures
            parse_labels(content@).len() > 0 <==> r is Ok,
            r matches Ok(count) ==> {
                &&& final (self).loaded matches Some(l) && l.deep_view() == parse_labels(content@)
                &&& count == parse_labels(content@).len()
            },
            r is Err ==> *final (self) == *old(self),
            r matches Err(e) ==> e matches InferenceError::LabelsLoadingFailed(m) && m@
                == "Labels file is empty"@,
            old(self).wf() ==> final (self).wf(),
    {
        let ghost s = content@;
        let n = content.unicode_len();
        let mut labels: Vec<String> = Vec::new();
        let mut start: usize = 0;
        proof {
            assert(labels.deep_view() + parse_labels_from(s, 0) =~= parse_labels(s));
        }
        loop
            invariant_except_break
                n == s.len(),
                s == content@,
                start <= n,
                labels.deep_view() + parse_labels_from(s, start as int) == parse_labels(s),
            ensures
                labels.deep_view() == parse_labels(s),
            decreases n - start,
        {
            // scan to the end of the current line
            let mut e = start;
            while e < n && content.get_char(e) != '\n'
                invariant
                    n == s.len(),
                    s == content@,
                    start <= e <= n,
                    forall|k: int| start <= k < e ==> #[trigger] s[k] != '\n',
                decreases n - e,
            {
                e += 1;
            }
            // trim the line to [a, b)
            let mut a = start;
            while a < e && is_space(content.get_char(a))
                invariant
                    n == s.len(),
                    s == content@,
                    start <= a <= e <= n,
                    forall|k: int| start <= k < a ==> is_space_char(#[trigger] s[k]),
                decreases e - a,
            {
                a += 1;
            }
            let mut b = e;
            while b > a && is_space(content.get_char(b - 1))
                invariant
                    n == s.len(),
                    s == content@,
                    start <= a <= b <= e <= n,
                    forall|k: int| b <= k < e ==> is_space_char(#[trigger] s[k]),
                decreases b - a,
            {
                b -= 1;
            }
            proof {
                lemma_line_end_at(s, start as int, e as int);
                let sub = s.subrange(start as int, e as int);
                lemma_trim_of_bounds(sub, a - start, b - start);
                assert(sub.subrange(a - start, b - start) =~= s.subrange(a as int, b as int));
                assert(trim_spec(sub) == s.subrange(a as int, b as int));
            }
            let ghost dv0 = labels.deep_view();
            if a < b {
                let piece = content.substring_char(a, b);
                labels.push(piece.to_owned());
                proof {
                    assert(labels.deep_view() =~= dv0.push(s.subrange(a as int, b as int)));
                    assert(s.subrange(a as int, b as int).len() > 0);
                    assert(dv0.push(s.subrange(a as int, b as int)) + parse_labels_from(
                        s,
                        e + 1,
                    ) =~= dv0 + (seq![s.subrange(a as int, b as int)] + parse_labels_from(
                        s,
                        e + 1,
                    )));
                }
            }
            proof {
                assert(labels.deep_view() + parse_labels_from(s, e + 1) == parse_labels(s));
            }
            if e == n {
                proof {
                    assert(parse_labels_from(s, n + 1) =~= Seq::<Seq<char>>::empty());
                    assert(labels.deep_view() + Seq::<Seq<char>>::empty() =~= labels.deep_view());
                }
                break ;
            }
            start = e + 1;
        }
        if labels.len() == 0 {
            proof {
                assert(labels.deep_view().len() == 0);
            }
            return Err(InferenceError::labels_loading_failed("Labels file is empty"));
        }
        let count = labels.len();
        proof {
            assert(labels.deep_view().len() == labels@.len());
        }
        self.loaded = Some(labels);
        Ok(count)
    }

    /// The display label for a class index: the active entry when in
    /// range, a synthetic `class_<index>` name otherwise.
    pub fn get_label(&self, index: usize) -> (r: String)
        ensures
            r@ == resolved_label(self.active_labels(), index as int),
    {
        match &self.loaded {
            Some(l) => {
                if index < l.len() {
                    l[index].clone()
                } else {
                    class_label_string(index)
                }
            },
            None => {
                if index < FALLBACK_LABEL_COUNT {
                    fallback_str(index).to_owned()
                } else {
                    class_label_string(index)
                }
            },
        }
    }

    /// Drop any loaded list, returning the store to the fallback table.
    pub fn clear_labels(&mut self) -> (nothing: ())
        ensures
            final (self).loaded is None,
            final (self).active_labels() == default_labels(),
            final (self).wf(),
    {
        self.loaded = None;
    }
}

} // verus!
