//! In-memory email metadata index with the dual Message-ID form: the
//! normalized id for every outside use, the raw stored key for body lookups.
use crate::ids::{normalize_message_id, normalized_id};
use crate::text::{chars_of, has_suffix, push_str, string_of};
use vstd::hash_map::StringHashMap;
use vstd::prelude::*;

verus! {

broadcast use {vstd::string::group_string_axioms, vstd::hash_map::group_hash_map_axioms};

/// Email fields without the body. `date` is in Unix seconds (UTC).
#[derive(Debug, Clone)]
pub struct EmailMeta {
    /// Canonical form for external use: tools, agents, front matter, roots, stems.
    pub message_id: String,
    /// Exact stored key; only for body lookups and debug logs.
    pub message_id_raw: String,
    pub subject: String,
    pub from: String,
    pub date: i64,
    /// As stored; normalized on use for parent lookup.
    pub in_reply_to: Option<String>,
    /// Elements as stored; normalized before use.
    pub references: Vec<String>,
}

/// One stored row, as the database hands it over (ordered by date).
#[derive(Debug, Clone)]
pub struct EmailRow {
    pub message_id: String,
    pub subject: String,
    pub from_addr: String,
    pub date: String,
    pub in_reply_to: Option<String>,
    pub references_json: String,
}

/// A conversation thread: messages sorted by date.
#[derive(Debug, Clone)]
pub struct MetaThread {
    /// Normalized root Message-ID.
    pub root_id: String,
    /// Subject of the earliest message in the thread.
    pub subject: String,
    /// Indices into `EmailIndex::emails`.
    pub message_indices: Vec<usize>,
}

/// The normalized root id of the thread a message belongs to: its first
/// reference, else its parent, else itself.
pub open spec fn thread_root(m: EmailMeta) -> Seq<char> {
    if m.references@.len() > 0 {
        normalized_id(m.references@[0]@)
    } else if m.in_reply_to is Some {
        normalized_id(m.in_reply_to->0@)
    } else {
        m.message_id@
    }
}

/// A message joins the thread of the first message it references, whatever
/// later references (its nearer ancestors) say; without references, the
/// thread of the message it replies to; otherwise it starts its own thread.
pub proof fn lemma_thread_root_rules(m: EmailMeta)
    ensures
        m.references@.len() > 0 ==> thread_root(m) == normalized_id(m.references@[0]@),
        m.references@.len() == 0 && m.in_reply_to is Some ==> thread_root(m) == normalized_id(m.in_reply_to->0@),
        m.references@.len() == 0 && m.in_reply_to is None ==> thread_root(m) == m.message_id@,
{
}

/// Two messages that reference the same first message are in the same
/// thread, however their later references (their own parents) differ.
pub proof fn lemma_same_first_reference_same_thread(a: EmailMeta, b: EmailMeta)
    requires
        a.references@.len() > 0,
        b.references@.len() > 0,
        a.references@[0]@ == b.references@[0]@,
    ensures
        thread_root(a) == thread_root(b),
        thread_root(a) == normalized_id(a.references@[0]@),
{
}

/// The normalized root id of the thread `msg` belongs to.
pub fn thread_root_id(msg: &EmailMeta) -> (r: String)
    ensures
        r@ == thread_root(*msg),
        msg.references@.len() > 0 ==> r@ == normalized_id(msg.references@[0]@),
        msg.references@.len() == 0 && msg.in_reply_to is Some ==> r@ == normalized_id(msg.in_reply_to->0@),
        msg.references@.len() == 0 && msg.in_reply_to is None ==> r@ == msg.message_id@,
{
    proof {
        lemma_thread_root_rules(*msg);
    }
    if msg.references.len() > 0 {
        normalize_message_id(msg.references[0].as_str())
    } else {
        match &msg.in_reply_to {
            Some(parent) => normalize_message_id(parent.as_str()),
            None => msg.message_id.clone(),
        }
    }
}

/// Unix seconds of `DateTime::parse_from_rfc3339(s)` in UTC, if it parses.
pub uninterp spec fn rfc3339_secs(s: Seq<char>) -> Option<int>;

/// `serde_json::from_str::<Vec<String>>(s)`, if it parses.
pub uninterp spec fn json_string_list(s: Seq<char>) -> Option<Seq<Seq<char>>>;

/// `DateTime::parse_from_rfc3339(s)` in Unix seconds (UTC), sub-second part dropped.
#[verifier::external_body]
fn parse_rfc3339(s: &str) -> (r: Option<i64>)
    ensures
        match r {
            Some(t) => rfc3339_secs(s@) == Some(t as int),
            None => rfc3339_secs(s@) is None,
        },
{
    match chrono::DateTime::parse_from_rfc3339(s) {
        Ok(d) => Some(d.timestamp()),
        Err(_) => None,
    }
}

/// `serde_json::from_str::<Vec<String>>(s)`.
#[verifier::external_body]
fn parse_string_list(s: &str) -> (r: Option<Vec<String>>)
    ensures
        match r {
            Some(v) => json_string_list(s@) == Some(v@.map_values(|x: String| x@)),
            None => json_string_list(s@) is None,
        },
{
    match serde_json::from_str::<Vec<String>>(s) {
        Ok(v) => Some(v),
        Err(_) => None,
    }
}

/// Why the stored rows could not be indexed (the first row at fault).
#[derive(Debug, Clone)]
pub enum IndexLoadError {
    InvalidDate { message_id: String, date: String },
    InvalidReferences { message_id: String },
}

pub open spec fn row_parses(r: EmailRow) -> bool {
    rfc3339_secs(r.date@) is Some && json_string_list(r.references_json@) is Some
}

/// The message a row becomes in the index.
pub open spec fn meta_of_row(m: EmailMeta, r: EmailRow) -> bool {
    &&& m.message_id@ == normalized_id(r.message_id@)
    &&& m.message_id_raw@ == r.message_id@
    &&& m.subject@ == r.subject@
    &&& m.from@ == r.from_addr@
    &&& rfc3339_secs(r.date@) == Some(m.date as int)
    &&& m.in_reply_to == r.in_reply_to
    &&& json_string_list(r.references_json@) == Some(m.references@.map_values(|x: String| x@))
}

/// Positions of the rows that survive: the first row of each normalized id.
pub open spec fn kept_rows(rows: Seq<EmailRow>) -> Seq<int>
    decreases rows.len(),
{
    if rows.len() == 0 {
        seq![]
    } else {
        let k = kept_rows(rows.drop_last());
        if exists|j: int|
            0 <= j < rows.len() - 1 && normalized_id(#[trigger] rows[j].message_id@) == normalized_id(
                rows.last().message_id@,
            ) {
            k
        } else {
            k.push(rows.len() - 1)
        }
    }
}

/// Parent index of each of the first `n` messages whose normalized
/// `in_reply_to` is the id of a message in the index.
pub open spec fn parent_map(emails: Seq<EmailMeta>, n: int) -> Map<Seq<char>, usize> {
    Map::new(
        |id: Seq<char>|
            exists|i: int|
                0 <= i < n && #[trigger] emails[i].message_id@ == id && has_parent_in(emails, i),
        |id: Seq<char>|
            {
                let i = choose|i: int| 0 <= i < n && #[trigger] emails[i].message_id@ == id;
                parent_pos(emails, i) as usize
            },
    )
}

/// Message `i` replies to a message present in the index.
pub open spec fn has_parent_in(emails: Seq<EmailMeta>, i: int) -> bool {
    emails[i].in_reply_to is Some && exists|j: int|
        0 <= j < emails.len() && #[trigger] emails[j].message_id@ == normalized_id(
            emails[i].in_reply_to->0@,
        )
}

/// Position of the parent of message `i`.
pub open spec fn parent_pos(emails: Seq<EmailMeta>, i: int) -> int {
    choose|j: int|
        0 <= j < emails.len() && #[trigger] emails[j].message_id@ == normalized_id(
            emails[i].in_reply_to->0@,
        )
}

/// In-memory index of every email's metadata.
pub struct EmailIndex {
    emails: Vec<EmailMeta>,
    /// Normalized message_id → index into `emails`.
    by_message_id: StringHashMap<usize>,
    /// Normalized message_id → index of the parent (if present in the index).
    replies_to: StringHashMap<usize>,
}

impl EmailIndex {
    /// The messages, in stored (date) order.
    pub closed spec fn msgs(&self) -> Seq<EmailMeta> {
        self.emails@
    }

    /// Ids are distinct, the id map finds each message, and the parent map is `parent_map`.
    pub closed spec fn wf(&self) -> bool {
        &&& forall|i: int, j: int|
            0 <= i < j < self.emails@.len() ==> #[trigger] self.emails@[i].message_id@
                != #[trigger] self.emails@[j].message_id@
        &&& forall|i: int|
            0 <= i < self.emails@.len() ==> #[trigger] self.by_message_id@.contains_key(
                self.emails@[i].message_id@,
            ) && self.by_message_id@[self.emails@[i].message_id@] == i
        &&& forall|k: Seq<char>|
            #[trigger] self.by_message_id@.contains_key(k) ==> (self.by_message_id@[k] as int)
                < self.emails@.len() && self.emails@[self.by_message_id@[k] as int].message_id@ == k
        &&& self.replies_to@ == parent_map(self.emails@, self.emails@.len() as int)
    }

    /// Index of the message with normalized id `id`, if any.
    pub open spec fn position(&self, id: Seq<char>) -> Option<int> {
        if exists|i: int| 0 <= i < self.msgs().len() && #[trigger] self.msgs()[i].message_id@ == id {
            Some(choose|i: int| 0 <= i < self.msgs().len() && #[trigger] self.msgs()[i].message_id@ == id)
        } else {
            None
        }
    }

    /// Empty index (output-only tools that do not scan mail metadata).
    pub fn empty() -> (r: EmailIndex)
        ensures
            r.wf(),
            r.msgs().len() == 0,
    {
        let r = EmailIndex {
            emails: Vec::new(),
            by_message_id: StringHashMap::new(),
            replies_to: StringHashMap::new(),
        };
        assert(r.replies_to@ =~= parent_map(r.emails@, 0));
        r
    }

    pub fn emails(&self) -> (r: &[EmailMeta])
        ensures
            r@ == self.msgs(),
    {
        self.emails.as_slice()
    }

    pub fn len(&self) -> (r: usize)
        ensures
            r == self.msgs().len(),
    {
        self.emails.len()
    }

    pub fn is_empty(&self) -> (r: bool)
        ensures
            r == (self.msgs().len() == 0),
    {
        self.emails.len() == 0
    }

    /// Lookup by flexible id (raw or normalized); normalizes input first.
    pub fn get(&self, message_id: &str) -> (r: Option<&EmailMeta>)
        requires
            self.wf(),
        ensures
            match r {
                Some(m) => exists|i: int|
                    0 <= i < self.msgs().len() && #[trigger] self.msgs()[i].message_id@ == normalized_id(
                        message_id@,
                    ) && *m == self.msgs()[i],
                None => !exists|i: int|
                    0 <= i < self.msgs().len() && #[trigger] self.msgs()[i].message_id@ == normalized_id(
                        message_id@,
                    ),
            },
    {
        let key = normalize_message_id(message_id);
        match self.by_message_id.get(key.as_str()) {
            Some(idx) => {
                let i = *idx;
                Some(&self.emails[i])
            },
            None => None,
        }
    }

    /// Whether a message with this (normalized) id is indexed.
    pub fn contains(&self, message_id: &str) -> (r: bool)
        requires
            self.wf(),
        ensures
            r == exists|i: int|
                0 <= i < self.msgs().len() && #[trigger] self.msgs()[i].message_id@ == normalized_id(
                    message_id@,
                ),
    {
        let key = normalize_message_id(message_id);
        self.by_message_id.contains_key(key.as_str())
    }

    /// The email this message replies to, if its parent is in the index.
    pub fn replies_to(&self, message_id: &str) -> (r: Option<&EmailMeta>)
        requires
            self.wf(),
        ensures
            ({
                let pm = parent_map(self.msgs(), self.msgs().len() as int);
                let key = normalized_id(message_id@);
                match r {
                    Some(m) => pm.contains_key(key) && *m == self.msgs()[pm[key] as int],
                    None => !pm.contains_key(key),
                }
            }),
    {
        let key = normalize_message_id(message_id);
        match self.replies_to.get(key.as_str()) {
            Some(idx) => {
                let i = *idx;
                proof {
                    let pm = parent_map(self.emails@, self.emails@.len() as int);
                    let ii = choose|ii: int|
                        0 <= ii < self.emails@.len() && #[trigger] self.emails@[ii].message_id@ == key@;
                    assert(pm[key@] == parent_pos(self.emails@, ii) as usize);
                }
                Some(&self.emails[i])
            },
            None => None,
        }
    }
}

/// The error the first unparsable row `r` gives.
pub open spec fn row_error(e: IndexLoadError, r: EmailRow) -> bool {
    if rfc3339_secs(r.date@) is None {
        e matches IndexLoadError::InvalidDate { message_id, date } && message_id@ == r.message_id@
            && date@ == r.date@
    } else {
        e matches IndexLoadError::InvalidReferences { message_id } && message_id@ == r.message_id@
    }
}

impl EmailIndex {
    /// Index the stored rows (given in date order). Ids are normalized; when
    /// two rows normalize to one id the earlier is kept. Every row's date and
    /// references must parse; the first that does not is reported.
    pub fn from_rows(rows: Vec<EmailRow>) -> (r: Result<EmailIndex, IndexLoadError>)
        ensures
            match r {
                Ok(ix) => {
                    &&& ix.wf()
                    &&& forall|k: int| 0 <= k < rows@.len() ==> row_parses(#[trigger] rows@[k])
                    &&& ix.msgs().len() == kept_rows(rows@).len()
                    &&& forall|i: int|
                        0 <= i < ix.msgs().len() ==> meta_of_row(
                            #[trigger] ix.msgs()[i],
                            rows@[kept_rows(rows@)[i]],
                        )
                },
                Err(e) => exists|k: int|
                    0 <= k < rows@.len() && (forall|j: int|
                        0 <= j < k ==> row_parses(#[trigger] rows@[j])) && !row_parses(rows@[k])
                        && row_error(e, rows@[k]),
            },
    {
        let mut emails: Vec<EmailMeta> = Vec::new();
        let mut by_id: StringHashMap<usize> = StringHashMap::new();
        let mut i: usize = 0;
        while i < rows.len()
            invariant
                i <= rows@.len(),
                forall|k: int| 0 <= k < i ==> row_parses(#[trigger] rows@[k]),
                emails@.len() == kept_rows(rows@.take(i as int)).len(),
                forall|e: int|
                    0 <= e < emails@.len() ==> 0 <= #[trigger] kept_rows(rows@.take(i as int))[e] < i,
                forall|e: int|
                    0 <= e < emails@.len() ==> meta_of_row(
                        #[trigger] emails@[e],
                        rows@[kept_rows(rows@.take(i as int))[e]],
                    ),
                forall|a: int, b: int|
                    0 <= a < b < emails@.len() ==> #[trigger] emails@[a].message_id@
                        != #[trigger] emails@[b].message_id@,
                forall|e: int|
                    0 <= e < emails@.len() ==> #[trigger] by_id@.contains_key(emails@[e].message_id@)
                        && by_id@[emails@[e].message_id@] == e,
                forall|key: Seq<char>|
                    #[trigger] by_id@.contains_key(key) ==> (by_id@[key] as int) < emails@.len()
                        && emails@[by_id@[key] as int].message_id@ == key,
                forall|key: Seq<char>|
                    by_id@.contains_key(key) <==> exists|j: int|
                        0 <= j < i && normalized_id(#[trigger] rows@[j].message_id@) == key,
            decreases rows@.len() - i,
        {
            let row = &rows[i];
            let date = match parse_rfc3339(row.date.as_str()) {
                Some(d) => d,
                None => {
                    return Err(
                        IndexLoadError::InvalidDate {
                            message_id: row.message_id.clone(),
                            date: row.date.clone(),
                        },
                    );
                },
            };
            let references = match parse_string_list(row.references_json.as_str()) {
                Some(v) => v,
                None => {
                    return Err(IndexLoadError::InvalidReferences { message_id: row.message_id.clone() });
                },
            };
            let nid = normalize_message_id(row.message_id.as_str());
            let ghost pre = rows@.take(i as int);
            let ghost post = rows@.take(i + 1);
            proof {
                assert(post.drop_last() =~= pre);
                assert(post.last() == rows@[i as int]);
                assert forall|j: int| 0 <= j < post.len() - 1 implies #[trigger] post[j] == rows@[j] by {}
            }
            if by_id.contains_key(nid.as_str()) {
                proof {
                    let j = choose|j: int| 0 <= j < i && normalized_id(#[trigger] rows@[j].message_id@) == nid@;
                    assert(normalized_id(post[j].message_id@) == normalized_id(post.last().message_id@));
                    assert(kept_rows(post) == kept_rows(pre));
                }
            } else {
                let ghost old_emails = emails@;
                let ghost old_map = by_id@;
                proof {
                    assert(!exists|j: int|
                        0 <= j < post.len() - 1 && normalized_id(#[trigger] post[j].message_id@)
                            == normalized_id(post.last().message_id@));
                    assert(kept_rows(post) == kept_rows(pre).push(i as int));
                }
                let m = EmailMeta {
                    message_id: nid.clone(),
                    message_id_raw: row.message_id.clone(),
                    subject: row.subject.clone(),
                    from: row.from_addr.clone(),
                    date,
                    in_reply_to: row.in_reply_to.clone(),
                    references,
                };
                emails.push(m);
                by_id.insert(nid, emails.len() - 1);
                proof {
                    assert forall|a: int, b: int|
                        0 <= a < b < emails@.len() implies #[trigger] emails@[a].message_id@
                            != #[trigger] emails@[b].message_id@ by {
                        if b == emails@.len() - 1 {
                            assert(old_map.contains_key(old_emails[a].message_id@));
                        }
                    }
                    assert forall|key: Seq<char>|
                        by_id@.contains_key(key) <==> exists|j: int|
                            0 <= j < i + 1 && normalized_id(#[trigger] rows@[j].message_id@) == key by {
                        if by_id@.contains_key(key) && key != nid@ {
                            assert(old_map.contains_key(key));
                            let j = choose|j: int|
                                0 <= j < i && normalized_id(#[trigger] rows@[j].message_id@) == key;
                            assert(0 <= j < i + 1 && normalized_id(rows@[j].message_id@) == key);
                        }
                        if by_id@.contains_key(key) && key == nid@ {
                            assert(normalized_id(rows@[i as int].message_id@) == key);
                        }
                    }
                }
            }
            i = i + 1;
        }
        proof {
            assert(rows@.take(i as int) =~= rows@);
        }
        let mut replies: StringHashMap<usize> = StringHashMap::new();
        let mut e: usize = 0;
        proof {
            assert(replies@ =~= parent_map(emails@, 0));
        }
        while e < emails.len()
            invariant
                e <= emails@.len(),
                forall|a: int, b: int|
                    0 <= a < b < emails@.len() ==> #[trigger] emails@[a].message_id@
                        != #[trigger] emails@[b].message_id@,
                forall|x: int|
                    0 <= x < emails@.len() ==> #[trigger] by_id@.contains_key(emails@[x].message_id@)
                        && by_id@[emails@[x].message_id@] == x,
                forall|key: Seq<char>|
                    #[trigger] by_id@.contains_key(key) ==> (by_id@[key] as int) < emails@.len()
                        && emails@[by_id@[key] as int].message_id@ == key,
                replies@ == parent_map(emails@, e as int),
            decreases emails@.len() - e,
        {
            let ghost old_rep = replies@;
            match &emails[e].in_reply_to {
                Some(parent) => {
                    let pn = normalize_message_id(parent.as_str());
                    match by_id.get(pn.as_str()) {
                        Some(pidx) => {
                            let p = *pidx;
                            replies.insert(emails[e].message_id.clone(), p);
                            proof {
                                assert(has_parent_in(emails@, e as int)) by {
                                    assert(emails@[p as int].message_id@ == normalized_id(
                                        emails@[e as int].in_reply_to->0@,
                                    ));
                                }
                                let j = parent_pos(emails@, e as int);
                                assert(emails@[j].message_id@ == pn@);
                                assert(j == p) by {
                                    if j != p {
                                        if j < p {
                                            assert(emails@[j].message_id@ != emails@[p as int].message_id@);
                                        } else {
                                            assert(emails@[p as int].message_id@ != emails@[j].message_id@);
                                        }
                                    }
                                }
                                assert(replies@ =~= parent_map(emails@, e + 1)) by {
                                    assert forall|id: Seq<char>|
                                        #[trigger] parent_map(emails@, e + 1).contains_key(id) implies replies@.contains_key(id) && replies@[id] == parent_map(emails@, e + 1)[id] by {
                                        let x = choose|x: int| 0 <= x < e + 1 && #[trigger] emails@[x].message_id@ == id;
                                        if x < e {
                                            assert(old_rep.contains_key(id));
                                        }
                                    }
                                    assert forall|id: Seq<char>|
                                        #[trigger] replies@.contains_key(id) implies parent_map(emails@, e + 1).contains_key(id) by {
                                        if id != emails@[e as int].message_id@ {
                                            assert(old_rep.contains_key(id));
                                            let x = choose|x: int| 0 <= x < e && #[trigger] emails@[x].message_id@ == id && has_parent_in(emails@, x);
                                            assert(0 <= x < e + 1 && emails@[x].message_id@ == id && has_parent_in(emails@, x));
                                        } else {
                                            assert(0 <= e < e + 1 && emails@[e as int].message_id@ == id && has_parent_in(emails@, e as int));
                                        }
                                    }
                                }
                            }
                        },
                        None => {
                            proof {
                                assert(!has_parent_in(emails@, e as int)) by {
                                    if has_parent_in(emails@, e as int) {
                                        let j = parent_pos(emails@, e as int);
                                        assert(by_id@.contains_key(emails@[j].message_id@));
                                    }
                                }
                                assert(replies@ =~= parent_map(emails@, e + 1)) by {
                                    assert forall|id: Seq<char>|
                                        #[trigger] parent_map(emails@, e + 1).contains_key(id) implies old_rep.contains_key(id) by {
                                        let x = choose|x: int| 0 <= x < e + 1 && #[trigger] emails@[x].message_id@ == id && has_parent_in(emails@, x);
                                        assert(x != e);
                                        assert(0 <= x < e && emails@[x].message_id@ == id && has_parent_in(emails@, x));
                                    }
                                    assert forall|id: Seq<char>|
                                        #[trigger] old_rep.contains_key(id) implies parent_map(emails@, e + 1).contains_key(id) by {
                                        let x = choose|x: int| 0 <= x < e && #[trigger] emails@[x].message_id@ == id && has_parent_in(emails@, x);
                                        assert(0 <= x < e + 1 && emails@[x].message_id@ == id && has_parent_in(emails@, x));
                                    }
                                }
                            }
                        },
                    }
                },
                None => {
                    proof {
                        assert(replies@ =~= parent_map(emails@, e + 1)) by {
                            assert forall|id: Seq<char>|
                                #[trigger] parent_map(emails@, e + 1).contains_key(id) implies old_rep.contains_key(id) by {
                                let x = choose|x: int| 0 <= x < e + 1 && #[trigger] emails@[x].message_id@ == id && has_parent_in(emails@, x);
                                assert(x != e);
                                assert(0 <= x < e && emails@[x].message_id@ == id && has_parent_in(emails@, x));
                            }
                            assert forall|id: Seq<char>|
                                #[trigger] old_rep.contains_key(id) implies parent_map(emails@, e + 1).contains_key(id) by {
                                let x = choose|x: int| 0 <= x < e && #[trigger] emails@[x].message_id@ == id && has_parent_in(emails@, x);
                                assert(0 <= x < e + 1 && emails@[x].message_id@ == id && has_parent_in(emails@, x));
                            }
                        }
                    }
                },
            }
            e = e + 1;
        }
        Ok(EmailIndex { emails, by_message_id: by_id, replies_to: replies })
    }
}

/// The text `DateTime::<Utc>::to_rfc3339` gives for the instant `secs` (Unix seconds).
pub uninterp spec fn rfc3339_text(secs: int) -> Seq<char>;

/// `DateTime::from_timestamp(secs, 0)` printed by `to_rfc3339`.
#[verifier::external_body]
pub(crate) fn rfc3339_string(secs: i64) -> (r: String)
    ensures
        r@ == rfc3339_text(secs as int),
{
    match chrono::DateTime::from_timestamp(secs, 0) {
        Some(d) => d.to_rfc3339(),
        None => String::new(),
    }
}

} // verus!
