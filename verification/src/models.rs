//! A message as read from the mail archive, built from its parsed headers.
use crate::content_cleaner::{clean_email_body, cleaned_body};
use crate::numfmt::{decimal, push_decimal_u64};
use crate::text::{chars_of, is_whitespace, is_ws, push_str, string_of, strings_of, strs, views};
use vstd::prelude::*;

verus! {

broadcast use vstd::string::group_string_axioms;

/// One archived message.
pub struct EmailMessage {
    pub message_id: String,
    pub subject: String,
    pub from: String,
    /// Commit time, Unix seconds.
    pub date: i64,
    pub body: String,
    pub in_reply_to: Option<String>,
    pub references: Vec<String>,
}

/// Scan of `s` cut at white space: the finished non-empty words and the
/// current one.
pub open spec fn ws_scan(s: Seq<char>) -> (Seq<Seq<char>>, Seq<char>)
    decreases s.len(),
{
    if s.len() == 0 {
        (seq![], seq![])
    } else {
        let (done, cur) = ws_scan(s.drop_last());
        if is_ws(s.last()) {
            if cur.len() > 0 {
                (done.push(cur), seq![])
            } else {
                (done, seq![])
            }
        } else {
            (done, cur.push(s.last()))
        }
    }
}

/// The white-space separated words of `s` (`str::split_whitespace`).
pub open spec fn words(s: Seq<char>) -> Seq<Seq<char>> {
    let (done, cur) = ws_scan(s);
    if cur.len() > 0 {
        done.push(cur)
    } else {
        done
    }
}

/// `str::split_whitespace`, as character vectors.
pub fn words_of(s: &[char]) -> (r: Vec<Vec<char>>)
    ensures
        views(r@) == words(s@),
{
    let mut done: Vec<Vec<char>> = Vec::new();
    let mut cur: Vec<char> = Vec::new();
    let mut i: usize = 0;
    proof {
        assert(s@.take(0) =~= Seq::<char>::empty());
        assert(views(done@) =~= Seq::<Seq<char>>::empty());
    }
    while i < s.len()
        invariant
            i <= s@.len(),
            (views(done@), cur@) == ws_scan(s@.take(i as int)),
        decreases s@.len() - i,
    {
        proof {
            assert(s@.take(i + 1).drop_last() =~= s@.take(i as int));
            assert(s@.take(i + 1).last() == s@[i as int]);
        }
        let c = s[i];
        if is_whitespace(c) {
            if cur.len() > 0 {
                let ghost before = done@;
                let w = cur;
                done.push(w);
                cur = Vec::new();
                proof {
                    assert(views(done@) =~= views(before).push(w@));
                    assert(cur@ =~= Seq::<char>::empty());
                }
            } else {
                proof {
                    assert(cur@ =~= Seq::<char>::empty());
                }
            }
        } else {
            cur.push(c);
        }
        i = i + 1;
    }
    proof {
        assert(s@.take(s@.len() as int) =~= s@);
    }
    if cur.len() > 0 {
        let ghost before = done@;
        done.push(cur);
        proof {
            assert(views(done@) =~= views(before).push(cur@));
        }
    }
    done
}

/// The id given to a message without a `Message-ID` header: `unknown-` and
/// the commit time in nanoseconds (0 where it does not fit).
pub open spec fn unknown_id_text(nanos: int) -> Seq<char> {
    if nanos < 0 {
        "unknown--"@ + decimal((-nanos) as nat)
    } else {
        "unknown-"@ + decimal(nanos as nat)
    }
}

pub open spec fn opt_text(o: Option<String>) -> Option<Seq<char>> {
    match o {
        Some(s) => Some(s@),
        None => None,
    }
}

/// The message built from the first value of each parsed header: a missing
/// `Message-ID` becomes `unknown-<nanos>`, a missing subject, sender or
/// body becomes empty, the `References` value is split at white space, and
/// the body is cleaned.
pub fn email_message_from_headers(
    message_id: Option<String>,
    subject: Option<String>,
    from: Option<String>,
    in_reply_to: Option<String>,
    references: Option<String>,
    body: Option<String>,
    date: i64,
    date_nanos: Option<i64>,
) -> (r: EmailMessage)
    ensures
        r.message_id@ == (match message_id {
            Some(m) => m@,
            None => unknown_id_text(match date_nanos {
                Some(n) => n as int,
                None => 0,
            }),
        }),
        r.subject@ == (match subject {
            Some(s) => s@,
            None => Seq::<char>::empty(),
        }),
        r.from@ == (match from {
            Some(s) => s@,
            None => Seq::<char>::empty(),
        }),
        r.date == date,
        opt_text(r.in_reply_to) == opt_text(in_reply_to),
        strs(r.references@) == (match references {
            Some(s) => words(s@),
            None => Seq::<Seq<char>>::empty(),
        }),
        r.body@ == cleaned_body(match body {
            Some(b) => b@,
            None => Seq::<char>::empty(),
        }),
{
    let message_id = match message_id {
        Some(m) => m,
        None => {
            let n: i64 = match date_nanos {
                Some(n) => n,
                None => 0,
            };
            let mut out = chars_of("unknown-");
            if n < 0 {
                out.push('-');
                let a: u64 = (-(n as i128)) as u64;
                push_decimal_u64(&mut out, a);
            } else {
                push_decimal_u64(&mut out, n as u64);
            }
            proof {
                reveal_strlit("unknown-");
                reveal_strlit("unknown--");
                if n < 0 {
                    assert("unknown-"@.push('-') =~= "unknown--"@);
                }
            }
            string_of(&out)
        },
    };
    let subject = match subject {
        Some(s) => s,
        None => String::new(),
    };
    let from = match from {
        Some(s) => s,
        None => String::new(),
    };
    let references = match references {
        Some(s) => {
            let ws = words_of(&chars_of(s.as_str()));
            strings_of(&ws)
        },
        None => {
            let v: Vec<String> = Vec::new();
            proof {
                assert(strs(v@) =~= Seq::<Seq<char>>::empty());
            }
            v
        },
    };
    let raw = match body {
        Some(b) => b,
        None => String::new(),
    };
    let body = clean_email_body(raw.as_str());
    EmailMessage { message_id, subject, from, date, body, in_reply_to, references }
}

} // verus!
