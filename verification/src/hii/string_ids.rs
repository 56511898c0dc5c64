//! The string ids assigned to the texts of a schema: a table from text to
//! HII string id, each text at most once.

use vstd::prelude::*;
use crate::text::string_eq_str;

verus! {

/// The id recorded for `t` among `es`, when there is one.
pub open spec fn lookup(es: Seq<(Seq<char>, u16)>, t: Seq<char>) -> Option<u16>
    decreases es.len(),
{
    if es.len() == 0 {
        None
    } else if es.last().0 == t {
        Some(es.last().1)
    } else {
        lookup(es.drop_last(), t)
    }
}

/// No text occurs twice.
pub open spec fn distinct_texts(es: Seq<(Seq<char>, u16)>) -> bool {
    forall|i: int, j: int| 0 <= i < j < es.len() ==> es[i].0 != es[j].0
}

/// A table from texts to string ids.
pub struct StringIds {
    entries: Vec<(String, u16)>,
}

impl View for StringIds {
    type V = Seq<(Seq<char>, u16)>;

    closed spec fn view(&self) -> Seq<(Seq<char>, u16)> {
        self.entries@.map_values(|e: (String, u16)| (e.0@, e.1))
    }
}

/// The id of a text known to be in the table.
pub open spec fn id_of(ids: Seq<(Seq<char>, u16)>, t: Seq<char>) -> u16 {
    lookup(ids, t)->0
}

/// The text is in the table.
pub open spec fn knows(ids: Seq<(Seq<char>, u16)>, t: Seq<char>) -> bool {
    lookup(ids, t) is Some
}

proof fn lemma_lookup_push(es: Seq<(Seq<char>, u16)>, e: (Seq<char>, u16), t: Seq<char>)
    ensures
        lookup(es.push(e), t) == if e.0 == t {
            Some(e.1)
        } else {
            lookup(es, t)
        },
{
    assert(es.push(e).drop_last() =~= es);
}

proof fn lemma_lookup_prefix(es: Seq<(Seq<char>, u16)>, k: int, t: Seq<char>)
    requires
        0 <= k <= es.len(),
        forall|j: int| k <= j < es.len() ==> es[j].0 != t,
    ensures
        lookup(es, t) == lookup(es.subrange(0, k), t),
    decreases es.len() - k,
{
    if k < es.len() {
        assert(es.drop_last().subrange(0, k) =~= es.subrange(0, k));
        lemma_lookup_prefix(es.drop_last(), k, t);
    } else {
        assert(es.subrange(0, k) =~= es);
    }
}

impl StringIds {
    pub closed spec fn wf(&self) -> bool {
        distinct_texts(self@)
    }

    /// An empty table.
    pub fn new() -> (r: StringIds)
        ensures
            r@ == Seq::<(Seq<char>, u16)>::empty(),
            r.wf(),
    {
        let r = StringIds { entries: Vec::new() };
        assert(r@ =~= Seq::<(Seq<char>, u16)>::empty());
        r
    }

    /// The id recorded for `text`.
    pub fn get(&self, text: &str) -> (r: Option<u16>)
        ensures
            r == lookup(self@, text@),
    {
        let n = self.entries.len();
        let ghost es = self@;
        assert(es.len() == n);
        let mut k: usize = n;
        while k > 0
            invariant
                k <= n,
                n == self.entries@.len(),
                es == self@,
                es.len() == n,
                forall|j: int| k <= j < n ==> es[j].0 != text@,
            decreases k,
        {
            let e = &self.entries[k - 1];
            assert(es[k - 1] == (e.0@, e.1));
            if string_eq_str(&e.0, text) {
                proof {
                    lemma_lookup_prefix(es, k as int, text@);
                    assert(es.subrange(0, k as int).last() == es[k - 1]);
                }
                return Some(e.1);
            }
            k = k - 1;
        }
        proof {
            lemma_lookup_prefix(es, 0, text@);
        }
        None
    }

    /// Records `id` for `text`, replacing an id it had.
    pub fn insert(&mut self, text: String, id: u16)
        requires
            old(self).wf(),
        ensures
            final(self).wf(),
            forall|t: Seq<char>|
                #[trigger] lookup(final(self)@, t) == if t == text@ {
                    Some(id)
                } else {
                    lookup(old(self)@, t)
                },
    {
        let ghost es = self@;
        let n = self.entries.len();
        let mut k: usize = 0;
        while k < n
            invariant
                k <= n,
                n == self.entries@.len(),
                es == self@,
                es == old(self)@,
                es.len() == n,
                distinct_texts(es),
                forall|j: int| 0 <= j < k ==> es[j].0 != text@,
            decreases n - k,
        {
            let same = string_eq_str(&self.entries[k].0, text.as_str());
            assert(es[k as int] == (self.entries@[k as int].0@, self.entries@[k as int].1));
            if same {
                let ghost old_entries = self.entries@;
                self.entries.set(k, (text, id));
                proof {
                    let ns = self@;
                    assert(ns =~= es.update(k as int, (text@, id)));
                    assert(distinct_texts(ns));
                    assert forall|t: Seq<char>| #[trigger] lookup(ns, t) == if t == text@ {
                        Some(id)
                    } else {
                        lookup(es, t)
                    } by {
                        lemma_lookup_update(es, k as int, text@, id, t);
                    }
                }
                return;
            }
            k = k + 1;
        }
        self.entries.push((text, id));
        proof {
            assert(self@ =~= es.push((text@, id)));
            assert forall|t: Seq<char>| #[trigger] lookup(self@, t) == if t == text@ {
                Some(id)
            } else {
                lookup(es, t)
            } by {
                lemma_lookup_push(es, (text@, id), t);
            }
        }
    }
}

proof fn lemma_lookup_update(es: Seq<(Seq<char>, u16)>, k: int, text: Seq<char>, id: u16, t: Seq<char>)
    requires
        0 <= k < es.len(),
        es[k].0 == text,
        distinct_texts(es),
    ensures
        lookup(es.update(k, (text, id)), t) == if t == text {
            Some(id)
        } else {
            lookup(es, t)
        },
    decreases es.len(),
{
    let ns = es.update(k, (text, id));
    if k == es.len() - 1 {
        assert(ns.drop_last() =~= es.drop_last());
    } else {
        assert(ns.drop_last() =~= es.drop_last().update(k, (text, id)));
        assert(es.last().0 != text);
        lemma_lookup_update(es.drop_last(), k, text, id, t);
    }
    if t == text && k < es.len() - 1 {
        assert(ns.last().0 != t);
    }
}

} // verus!
