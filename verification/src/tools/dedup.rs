//! Per-session duplicate detection for read-only agent tools.
//!
//! Mail and output tools read immutable data, so repeating the same call in one
//! session is wasted work. The deduper records each `(tool, args fingerprint)`
//! pair and answers a second identical request with an error for the model.
use crate::text::{chars_eq, chars_of, push_str, string_of};
use vstd::prelude::*;

verus! {

broadcast use vstd::string::group_string_axioms;

/// Tracker of the `(tool, fingerprint)` pairs seen in one session.
pub struct RequestDeduper {
    seen: Vec<(String, String)>,
}

pub open spec fn duplicate_message(tool: Seq<char>) -> Seq<char> {
    "ERROR: duplicate "@ + tool
        + " request; this exact call was already issued in this session. Use the previous tool result."@
}

fn duplicate_error(tool: &str) -> (r: String)
    ensures
        r@ == duplicate_message(tool@),
{
    let mut out = chars_of("ERROR: duplicate ");
    push_str(&mut out, tool);
    push_str(
        &mut out,
        " request; this exact call was already issued in this session. Use the previous tool result.",
    );
    string_of(&out)
}

impl RequestDeduper {
    /// The requests recorded so far.
    pub closed spec fn seen_set(&self) -> Set<(Seq<char>, Seq<char>)> {
        self.seen@.map_values(|p: (String, String)| (p.0@, p.1@)).to_set()
    }

    pub fn new() -> (r: Self)
        ensures
            r.seen_set() == Set::<(Seq<char>, Seq<char>)>::empty(),
    {
        let r = RequestDeduper { seen: Vec::new() };
        assert(r.seen_set() =~= Set::<(Seq<char>, Seq<char>)>::empty());
        r
    }

    /// Record this request. `Err` is a model-visible `ERROR: …` string if the
    /// same tool + fingerprint pair was already issued in this session.
    pub fn check_or_insert(&mut self, tool: &str, fingerprint: &str) -> (r: Result<(), String>)
        ensures
            match r {
                Err(e) => {
                    &&& old(self).seen_set().contains((tool@, fingerprint@))
                    &&& e@ == duplicate_message(tool@)
                    &&& final(self).seen_set() == old(self).seen_set()
                },
                Ok(_) => {
                    &&& !old(self).seen_set().contains((tool@, fingerprint@))
                    &&& final(self).seen_set() == old(self).seen_set().insert((tool@, fingerprint@))
                },
            },
    {
        let tv = chars_of(tool);
        let fv = chars_of(fingerprint);
        let ghost key = (tool@, fingerprint@);
        let ghost pv = self.seen@.map_values(|p: (String, String)| (p.0@, p.1@));
        let mut i: usize = 0;
        while i < self.seen.len()
            invariant
                i <= self.seen@.len(),
                pv == self.seen@.map_values(|p: (String, String)| (p.0@, p.1@)),
                tv@ == tool@,
                fv@ == fingerprint@,
                key == (tool@, fingerprint@),
                forall|j: int| 0 <= j < i ==> pv[j] != key,
            decreases self.seen@.len() - i,
        {
            let a = chars_of(self.seen[i].0.as_str());
            let b = chars_of(self.seen[i].1.as_str());
            proof {
                assert(pv[i as int] == (a@, b@));
            }
            if chars_eq(&a, &tv) && chars_eq(&b, &fv) {
                proof {
                    assert(pv[i as int] == key);
                    assert(pv.to_set().contains(key));
                }
                return Err(duplicate_error(tool));
            }
            i = i + 1;
        }
        proof {
            assert(!pv.to_set().contains(key)) by {
                if pv.to_set().contains(key) {
                    let j = choose|j: int| 0 <= j < pv.len() && pv[j] == key;
                }
            }
        }
        let ghost before = self.seen@;
        self.seen.push((string_of(&tv), string_of(&fv)));
        proof {
            let after = self.seen@.map_values(|p: (String, String)| (p.0@, p.1@));
            assert(after =~= pv.push(key));
            assert(after.to_set() =~= pv.to_set().insert(key)) by {
                assert forall|y: (Seq<char>, Seq<char>)| #[trigger] after.to_set().contains(y) <==> pv.to_set().insert(
                    key,
                ).contains(y) by {
                    if after.to_set().contains(y) {
                        let j = choose|j: int| 0 <= j < after.len() && after[j] == y;
                        if j < pv.len() {
                            assert(pv[j] == y);
                        }
                    }
                    if pv.to_set().contains(y) {
                        let j = choose|j: int| 0 <= j < pv.len() && pv[j] == y;
                        assert(after[j] == y);
                    }
                    if y == key {
                        assert(after[pv.len() as int] == key);
                    }
                }
            }
        }
        Ok(())
    }
}

} // verus!
