//! Repair and validation of the ordering agent's thread order.
use crate::ids::{normalize_chars, normalize_message_id, normalized_id};
use crate::numfmt::{decimal, push_decimal};
use crate::seqs::{
    contains_chars, copy_chars, distinct, sort_distinct, strictly_sorted,
};
use crate::config::opt_view;
use crate::text::{chars_eq, chars_of, find, find_str, push_str, string_of, strs, views};
use vstd::prelude::*;

verus! {

broadcast use vstd::string::group_string_axioms;

/// Persisted `.thread-order.json` contents.
pub struct ThreadOrderFile {
    pub week_ending: String,
    pub ordered_root_ids: Vec<String>,
    pub notes: Option<String>,
}

/// What the host changed while coercing a model order into a permutation.
pub struct OrderRepairReport {
    pub dropped_unknown: Vec<String>,
    pub dropped_duplicates: usize,
    pub appended: Vec<String>,
    /// `(raw, cleaned)` for ids that normalization changed.
    pub sanitized_from: Vec<(String, String)>,
}

impl OrderRepairReport {
    /// Drops / appends (not mere white space or comma cleanup).
    pub open spec fn is_structural(&self) -> bool {
        self.dropped_unknown@.len() > 0 || self.dropped_duplicates > 0 || self.appended@.len() > 0
    }

    /// Any host-side change (including id sanitization).
    pub open spec fn is_changed(&self) -> bool {
        self.is_structural() || self.sanitized_from@.len() > 0
    }

    /// Any host-side change (including id sanitization).
    pub fn changed(&self) -> (r: bool)
        ensures
            r == self.is_changed(),
    {
        self.structural_change() || self.sanitized_from.len() > 0
    }

    /// Drops / appends (not mere white space or comma cleanup).
    pub fn structural_change(&self) -> (r: bool)
        ensures
            r == self.is_structural(),
    {
        self.dropped_unknown.len() > 0 || self.dropped_duplicates > 0 || self.appended.len() > 0
    }
}

/// Strip common model / header junk around Message-IDs.
pub fn sanitize_root_id(id: &str) -> (r: String)
    ensures
        r@ == normalized_id(id@),
{
    normalize_message_id(id)
}

/// Scan of the model's order: kept ids (first occurrence of each expected id,
/// in order), unknown ids (in order), and the number of repeated expected ids.
/// Ids that normalize to empty are skipped.
pub open spec fn scan(ordered: Seq<Seq<char>>, exp: Set<Seq<char>>) -> (
    Seq<Seq<char>>,
    Seq<Seq<char>>,
    nat,
)
    decreases ordered.len(),
{
    if ordered.len() == 0 {
        (seq![], seq![], 0)
    } else {
        let (kept, unknown, dupes) = scan(ordered.drop_last(), exp);
        let n = normalized_id(ordered.last());
        if n.len() == 0 {
            (kept, unknown, dupes)
        } else if !exp.contains(n) {
            (kept, unknown.push(n), dupes)
        } else if kept.contains(n) {
            (kept, unknown, dupes + 1)
        } else {
            (kept.push(n), unknown, dupes)
        }
    }
}

/// `(raw, cleaned)` pairs for the ids that normalization changed.
pub open spec fn sanitized(ordered: Seq<Seq<char>>) -> Seq<(Seq<char>, Seq<char>)>
    decreases ordered.len(),
{
    if ordered.len() == 0 {
        seq![]
    } else {
        let rest = sanitized(ordered.drop_last());
        let raw = ordered.last();
        if normalized_id(raw) != raw {
            rest.push((raw, normalized_id(raw)))
        } else {
            rest
        }
    }
}

/// Missing ids that the catalog lists, in catalog order, each once.
pub open spec fn catalog_missing(catalog: Seq<Seq<char>>, missing: Set<Seq<char>>) -> Seq<
    Seq<char>,
>
    decreases catalog.len(),
{
    if catalog.len() == 0 {
        seq![]
    } else {
        let acc = catalog_missing(catalog.drop_last(), missing);
        let c = normalized_id(catalog.last());
        if missing.contains(c) && !acc.contains(c) {
            acc.push(c)
        } else {
            acc
        }
    }
}

/// Expected ids that the scan did not keep.
pub open spec fn missing_ids(exp: Set<Seq<char>>, kept: Seq<Seq<char>>) -> Set<Seq<char>> {
    exp.difference(kept.to_set())
}

pub open spec fn pair_view(p: (String, String)) -> (Seq<char>, Seq<char>) {
    (p.0@, p.1@)
}

/// The order and report [`coerce_to_permutation`] produce for `exp`:
/// kept ids, then missing ids in catalog order, then the remaining missing
/// ids in increasing `String` order.
pub open spec fn repaired(
    ordered: Seq<Seq<char>>,
    exp: Set<Seq<char>>,
    catalog: Seq<Seq<char>>,
    order: Seq<Seq<char>>,
    report: OrderRepairReport,
) -> bool {
    let (kept, unknown, dupes) = scan(ordered, exp);
    let missing = missing_ids(exp, kept);
    let cat = catalog_missing(catalog, missing);
    let rest = order.subrange((kept.len() + cat.len()) as int, order.len() as int);
    &&& order.len() >= kept.len() + cat.len()
    &&& order.subrange(0, kept.len() as int) == kept
    &&& order.subrange(kept.len() as int, (kept.len() + cat.len()) as int) == cat
    &&& strictly_sorted(rest)
    &&& rest.to_set() == missing.difference(cat.to_set())
    &&& strs(report.dropped_unknown@) == unknown
    &&& report.dropped_duplicates == dupes
    &&& strs(report.appended@) == order.subrange(kept.len() as int, order.len() as int)
    &&& report.sanitized_from@.map_values(|p: (String, String)| pair_view(p)) == sanitized(
        ordered,
    )
}

fn strings_to_chars(v: &[String]) -> (r: Vec<Vec<char>>)
    ensures
        views(r@) == strs(v@),
{
    let mut out: Vec<Vec<char>> = Vec::new();
    let mut i: usize = 0;
    while i < v.len()
        invariant
            i <= v@.len(),
            views(out@) == strs(v@).take(i as int),
        decreases v@.len() - i,
    {
        let c = chars_of(v[i].as_str());
        let ghost prev = out@;
        out.push(c);
        proof {
            assert(views(out@) =~= views(prev).push(c@));
            assert(strs(v@).take((i + 1) as int) =~= strs(v@).take(i as int).push(v@[i as int]@));
        }
        i = i + 1;
    }
    assert(strs(v@).take(v@.len() as int) =~= strs(v@));
    out
}

fn chars_to_strings(v: &Vec<Vec<char>>) -> (r: Vec<String>)
    ensures
        strs(r@) == views(v@),
{
    let mut out: Vec<String> = Vec::new();
    let mut i: usize = 0;
    while i < v.len()
        invariant
            i <= v@.len(),
            strs(out@) == views(v@).take(i as int),
        decreases v@.len() - i,
    {
        let s = string_of(&v[i]);
        let ghost prev = out@;
        out.push(s);
        proof {
            assert(strs(out@) =~= strs(prev).push(s@));
            assert(views(v@).take((i + 1) as int) =~= views(v@).take(i as int).push(v@[i as int]@));
        }
        i = i + 1;
    }
    assert(views(v@).take(v@.len() as int) =~= views(v@));
    out
}

pub proof fn lemma_kept_props(ordered: Seq<Seq<char>>, exp: Set<Seq<char>>)
    ensures
        distinct(scan(ordered, exp).0),
        forall|x: Seq<char>| scan(ordered, exp).0.contains(x) ==> exp.contains(x),
    decreases ordered.len(),
{
    if ordered.len() > 0 {
        lemma_kept_props(ordered.drop_last(), exp);
    }
}

proof fn lemma_cat_props(catalog: Seq<Seq<char>>, missing: Set<Seq<char>>)
    ensures
        distinct(catalog_missing(catalog, missing)),
        forall|x: Seq<char>| catalog_missing(catalog, missing).contains(x) ==> missing.contains(x),
    decreases catalog.len(),
{
    if catalog.len() > 0 {
        lemma_cat_props(catalog.drop_last(), missing);
    }
}

/// Coerce a model-provided order into a full permutation of `expected`.
///
/// - Sanitizes each id (trim, strip trailing commas and similar junk)
/// - Drops unknowns and duplicates (first wins)
/// - Appends any missing ids in `catalog_order` sequence, then the rest sorted
///
/// Fails only when `expected` is empty.
pub fn coerce_to_permutation(
    ordered: &[String],
    expected: &[String],
    catalog_order: &[String],
) -> (r: Result<(Vec<String>, OrderRepairReport), String>)
    ensures
        match r {
            Ok((order, report)) => {
                &&& expected@.len() > 0
                &&& repaired(
                    strs(ordered@),
                    strs(expected@).to_set(),
                    strs(catalog_order@),
                    strs(order@),
                    report,
                )
            },
            Err(e) => expected@.len() == 0 && e@ == "expected root set is empty"@,
        },
{
    if expected.len() == 0 {
        return Err(string_of(&chars_of("expected root set is empty")));
    }
    let exp = strings_to_chars(expected);
    let ghost es = strs(expected@).to_set();
    let ghost ov = strs(ordered@);
    proof {
        assert(views(exp@).to_set() == es);
    }
    let mut kept: Vec<Vec<char>> = Vec::new();
    let mut unknown: Vec<Vec<char>> = Vec::new();
    let mut dupes: usize = 0;
    let mut sanitized_from: Vec<(String, String)> = Vec::new();
    let mut i: usize = 0;
    proof {
        assert(ov.take(0) =~= Seq::<Seq<char>>::empty());
        assert(views(kept@) =~= Seq::<Seq<char>>::empty());
        assert(views(unknown@) =~= Seq::<Seq<char>>::empty());
        assert(sanitized_from@.map_values(|p: (String, String)| pair_view(p)) =~= Seq::<
            (Seq<char>, Seq<char>),
        >::empty());
    }
    while i < ordered.len()
        invariant
            i <= ordered@.len(),
            ov == strs(ordered@),
            views(exp@).to_set() == es,
            scan(ov.take(i as int), es) == (views(kept@), views(unknown@), dupes as nat),
            sanitized_from@.map_values(|p: (String, String)| pair_view(p)) == sanitized(
                ov.take(i as int),
            ),
            dupes <= i,
        decreases ordered@.len() - i,
    {
        proof {
            assert(ov.take((i + 1) as int).drop_last() =~= ov.take(i as int));
            assert(ov.take((i + 1) as int).last() == ordered@[i as int]@);
        }
        let raw = chars_of(ordered[i].as_str());
        let n = normalize_chars(&raw);
        if !chars_eq(&n, &raw) {
            let ghost prev = sanitized_from@;
            sanitized_from.push((string_of(&raw), string_of(&n)));
            proof {
                assert(sanitized_from@.map_values(|p: (String, String)| pair_view(p))
                    =~= prev.map_values(|p: (String, String)| pair_view(p)).push((raw@, n@)));
            }
        }
        if n.len() == 0 {
        } else if !contains_chars(&exp, &n) {
            proof {
                assert(!es.contains(n@));
            }
            let ghost prev = unknown@;
            unknown.push(n);
            proof {
                assert(views(unknown@) =~= views(prev).push(unknown@.last()@));
            }
        } else if contains_chars(&kept, &n) {
            dupes = dupes + 1;
        } else {
            let ghost prev = kept@;
            kept.push(n);
            proof {
                assert(views(kept@) =~= views(prev).push(kept@.last()@));
            }
        }
        i = i + 1;
    }
    proof {
        assert(ov.take(ordered@.len() as int) =~= ov);
        lemma_kept_props(ov, es);
    }
    let ghost kv = views(kept@);
    let ghost missing = missing_ids(es, kv);
    // distinct missing ids, in `expected` order
    let mut miss: Vec<Vec<char>> = Vec::new();
    let mut j: usize = 0;
    proof {
        assert(views(miss@).to_set() =~= Set::<Seq<char>>::empty());
    }
    while j < exp.len()
        invariant
            j <= exp@.len(),
            views(exp@).to_set() == es,
            views(kept@) == kv,
            missing == missing_ids(es, kv),
            distinct(views(miss@)),
            views(miss@).to_set() == views(exp@).take(j as int).to_set().difference(kv.to_set()),
        decreases exp@.len() - j,
    {
        let e = &exp[j];
        let ghost ev = e@;
        let ghost before = views(miss@);
        proof {
            assert(views(exp@).take((j + 1) as int) =~= views(exp@).take(j as int).push(ev));
            assert(views(exp@).take((j + 1) as int).to_set() =~= views(exp@).take(
                j as int,
            ).to_set().insert(ev)) by {
                let t1 = views(exp@).take((j + 1) as int);
                let t0 = views(exp@).take(j as int);
                assert forall|y: Seq<char>| t1.to_set().contains(y) implies t0.to_set().insert(
                    ev,
                ).contains(y) by {
                    let k = choose|k: int| 0 <= k < t1.len() && t1[k] == y;
                    if k < j {
                        assert(t0[k] == y);
                    }
                }
                assert forall|y: Seq<char>| t0.to_set().insert(ev).contains(y) implies t1.to_set().contains(
                    y,
                ) by {
                    if y == ev {
                        assert(t1[j as int] == ev);
                    } else {
                        let k = choose|k: int| 0 <= k < t0.len() && t0[k] == y;
                        assert(t1[k] == y);
                    }
                }
            }
        }
        if !contains_chars(&kept, e) && !contains_chars(&miss, e) {
            miss.push(copy_chars(e));
            proof {
                let after = views(miss@);
                assert(after =~= before.push(ev));
                assert forall|a: int, b: int| 0 <= a < b < after.len() implies after[a]
                    != after[b] by {
                    if b == after.len() - 1 {
                        assert(before.contains(before[a]));
                    }
                }
                assert forall|y: Seq<char>| #[trigger] after.to_set().contains(y) <==> before.to_set().insert(
                    ev,
                ).contains(y) by {
                    if after.to_set().contains(y) {
                        let k = choose|k: int| 0 <= k < after.len() && after[k] == y;
                        if k < before.len() {
                            assert(before[k] == y);
                        }
                    }
                    if before.to_set().contains(y) {
                        let k = choose|k: int| 0 <= k < before.len() && before[k] == y;
                        assert(after[k] == y);
                    }
                    if y == ev {
                        assert(after[before.len() as int] == ev);
                    }
                }
                assert(after.to_set() =~= views(exp@).take((j + 1) as int).to_set().difference(
                    kv.to_set(),
                ));
            }
        } else {
            proof {
                assert(views(miss@).to_set() =~= views(exp@).take((j + 1) as int).to_set().difference(
                    kv.to_set(),
                )) by {
                    if !kv.contains(ev) {
                        assert(before.contains(ev));
                        let k = choose|k: int| 0 <= k < before.len() && before[k] == ev;
                        assert(before.to_set().contains(ev));
                    }
                }
            }
        }
        j = j + 1;
    }
    proof {
        assert(views(exp@).take(exp@.len() as int) =~= views(exp@));
        assert(views(miss@).to_set() =~= missing);
    }
    // missing ids that the catalog lists, in catalog order
    let ghost cv = strs(catalog_order@);
    let mut cat: Vec<Vec<char>> = Vec::new();
    let mut k: usize = 0;
    proof {
        assert(cv.take(0) =~= Seq::<Seq<char>>::empty());
        assert(views(cat@) =~= Seq::<Seq<char>>::empty());
    }
    while k < catalog_order.len()
        invariant
            k <= catalog_order@.len(),
            cv == strs(catalog_order@),
            views(miss@).to_set() == missing,
            views(cat@) == catalog_missing(cv.take(k as int), missing),
        decreases catalog_order@.len() - k,
    {
        proof {
            assert(cv.take((k + 1) as int).drop_last() =~= cv.take(k as int));
            assert(cv.take((k + 1) as int).last() == catalog_order@[k as int]@);
        }
        let c = chars_of(catalog_order[k].as_str());
        let c = normalize_chars(&c);
        if contains_chars(&miss, &c) && !contains_chars(&cat, &c) {
            let ghost prev = cat@;
            cat.push(c);
            proof {
                assert(views(cat@) =~= views(prev).push(cat@.last()@));
            }
        }
        k = k + 1;
    }
    proof {
        assert(cv.take(catalog_order@.len() as int) =~= cv);
        lemma_cat_props(cv, missing);
    }
    let ghost catv = views(cat@);
    // the remaining missing ids, sorted
    let mut rest: Vec<Vec<char>> = Vec::new();
    let mut m: usize = 0;
    proof {
        assert(views(rest@).to_set() =~= Set::<Seq<char>>::empty());
    }
    while m < miss.len()
        invariant
            m <= miss@.len(),
            distinct(views(miss@)),
            views(cat@) == catv,
            distinct(views(rest@)),
            views(rest@).to_set() == views(miss@).take(m as int).to_set().difference(catv.to_set()),
        decreases miss@.len() - m,
    {
        let x = &miss[m];
        let ghost xv = x@;
        let ghost before = views(rest@);
        proof {
            let t1 = views(miss@).take((m + 1) as int);
            let t0 = views(miss@).take(m as int);
            assert(t1.to_set() =~= t0.to_set().insert(xv)) by {
                assert forall|y: Seq<char>| t1.to_set().contains(y) implies t0.to_set().insert(
                    xv,
                ).contains(y) by {
                    let q = choose|q: int| 0 <= q < t1.len() && t1[q] == y;
                    if q < m {
                        assert(t0[q] == y);
                    }
                }
                assert forall|y: Seq<char>| t0.to_set().insert(xv).contains(y) implies t1.to_set().contains(
                    y,
                ) by {
                    if y == xv {
                        assert(t1[m as int] == xv);
                    } else {
                        let q = choose|q: int| 0 <= q < t0.len() && t0[q] == y;
                        assert(t1[q] == y);
                    }
                }
            }
            assert(!t0.to_set().contains(xv)) by {
                if t0.to_set().contains(xv) {
                    let q = choose|q: int| 0 <= q < t0.len() && t0[q] == xv;
                    assert(views(miss@)[q] == views(miss@)[m as int]);
                }
            }
        }
        if !contains_chars(&cat, x) {
            rest.push(copy_chars(x));
            proof {
                let after = views(rest@);
                assert(after =~= before.push(xv));
                assert(!before.contains(xv)) by {
                    if before.contains(xv) {
                        let q = choose|q: int| 0 <= q < before.len() && before[q] == xv;
                        assert(before.to_set().contains(xv));
                    }
                }
                assert forall|a: int, b: int| 0 <= a < b < after.len() implies after[a]
                    != after[b] by {
                    if b == after.len() - 1 {
                        assert(before.contains(before[a]));
                    }
                }
                assert forall|y: Seq<char>| #[trigger] after.to_set().contains(y) <==> before.to_set().insert(
                    xv,
                ).contains(y) by {
                    if after.to_set().contains(y) {
                        let q = choose|q: int| 0 <= q < after.len() && after[q] == y;
                        if q < before.len() {
                            assert(before[q] == y);
                        }
                    }
                    if before.to_set().contains(y) {
                        let q = choose|q: int| 0 <= q < before.len() && before[q] == y;
                        assert(after[q] == y);
                    }
                    if y == xv {
                        assert(after[before.len() as int] == xv);
                    }
                }
                assert(after.to_set() =~= views(miss@).take((m + 1) as int).to_set().difference(
                    catv.to_set(),
                ));
            }
        } else {
            proof {
                assert(views(rest@).to_set() =~= views(miss@).take((m + 1) as int).to_set().difference(
                    catv.to_set(),
                ));
            }
        }
        m = m + 1;
    }
    proof {
        assert(views(miss@).take(miss@.len() as int) =~= views(miss@));
    }
    let sorted = sort_distinct(rest);
    let mut order: Vec<Vec<char>> = Vec::new();
    let mut appended: Vec<Vec<char>> = Vec::new();
    let mut t: usize = 0;
    while t < kept.len()
        invariant
            t <= kept@.len(),
            views(order@) == views(kept@).take(t as int),
        decreases kept@.len() - t,
    {
        let ghost prev = order@;
        order.push(copy_chars(&kept[t]));
        proof {
            assert(views(order@) =~= views(prev).push(kept@[t as int]@));
            assert(views(kept@).take((t + 1) as int) =~= views(kept@).take(t as int).push(
                kept@[t as int]@,
            ));
        }
        t = t + 1;
    }
    proof {
        assert(views(kept@).take(kept@.len() as int) =~= views(kept@));
        assert(views(appended@) =~= Seq::<Seq<char>>::empty());
    }
    let mut t: usize = 0;
    while t < cat.len()
        invariant
            t <= cat@.len(),
            views(order@) == views(kept@) + views(appended@),
            views(appended@) == views(cat@).take(t as int),
        decreases cat@.len() - t,
    {
        let ghost p1 = order@;
        let ghost p2 = appended@;
        order.push(copy_chars(&cat[t]));
        appended.push(copy_chars(&cat[t]));
        proof {
            assert(views(order@) =~= views(p1).push(cat@[t as int]@));
            assert(views(appended@) =~= views(p2).push(cat@[t as int]@));
            assert(views(cat@).take((t + 1) as int) =~= views(cat@).take(t as int).push(
                cat@[t as int]@,
            ));
        }
        t = t + 1;
    }
    proof {
        assert(views(cat@).take(cat@.len() as int) =~= views(cat@));
    }
    let mut t: usize = 0;
    while t < sorted.len()
        invariant
            t <= sorted@.len(),
            views(order@) == views(kept@) + views(appended@),
            views(appended@) == views(cat@) + views(sorted@).take(t as int),
        decreases sorted@.len() - t,
    {
        let ghost p1 = order@;
        let ghost p2 = appended@;
        order.push(copy_chars(&sorted[t]));
        appended.push(copy_chars(&sorted[t]));
        proof {
            assert(views(order@) =~= views(p1).push(sorted@[t as int]@));
            assert(views(appended@) =~= views(p2).push(sorted@[t as int]@));
            assert(views(sorted@).take((t + 1) as int) =~= views(sorted@).take(t as int).push(
                sorted@[t as int]@,
            ));
        }
        t = t + 1;
    }
    proof {
        assert(views(sorted@).take(sorted@.len() as int) =~= views(sorted@));
        let o = views(order@);
        let kl = views(kept@).len();
        let cl = views(cat@).len();
        assert(o.subrange(0, kl as int) =~= views(kept@));
        assert(o.subrange(kl as int, (kl + cl) as int) =~= views(cat@));
        assert(o.subrange((kl + cl) as int, o.len() as int) =~= views(sorted@));
        assert(o.subrange(kl as int, o.len() as int) =~= views(appended@));
    }
    let out_order = chars_to_strings(&order);
    let report = OrderRepairReport {
        dropped_unknown: chars_to_strings(&unknown),
        dropped_duplicates: dupes,
        appended: chars_to_strings(&appended),
        sanitized_from,
    };
    Ok((out_order, report))
}

/// Strict validation: the order must already be a clean permutation (only
/// id normalization is tolerated).
pub fn validate_permutation(ordered: &[String], expected: &[String]) -> (r: Result<
    Vec<String>,
    String,
>)
    ensures
        expected@.len() == 0 ==> r is Err,
        expected@.len() > 0 ==> match r {
            Ok(order) => exists|report: OrderRepairReport|
                {
                    &&& repaired(
                        strs(ordered@),
                        strs(expected@).to_set(),
                        seq![],
                        strs(order@),
                        report,
                    )
                    &&& !report.is_structural()
                },
            Err(_) => forall|order: Seq<Seq<char>>, report: OrderRepairReport|
                repaired(strs(ordered@), strs(expected@).to_set(), seq![], order, report)
                    ==> report.is_structural(),
        },
{
    let empty: Vec<String> = Vec::new();
    proof {
        assert(strs(empty@) =~= Seq::<Seq<char>>::empty());
    }
    match coerce_to_permutation(ordered, expected, &empty) {
        Err(e) => Err(e),
        Ok((order, report)) => {
            if report.structural_change() {
                proof {
                    assert forall|o2: Seq<Seq<char>>, r2: OrderRepairReport|
                        repaired(
                            strs(ordered@),
                            strs(expected@).to_set(),
                            seq![],
                            o2,
                            r2,
                        ) implies r2.is_structural() by {
                        lemma_repaired_report_unique(
                            strs(ordered@),
                            strs(expected@).to_set(),
                            seq![],
                            strs(order@),
                            report,
                            o2,
                            r2,
                        );
                    }
                }
                let mut msg = chars_of("order is not a clean permutation (dropped_unknown=");
                push_decimal(&mut msg, report.dropped_unknown.len());
                push_str(&mut msg, ", dupes=");
                push_decimal(&mut msg, report.dropped_duplicates);
                push_str(&mut msg, ", appended=");
                push_decimal(&mut msg, report.appended.len());
                push_str(&mut msg, ")");
                Err(string_of(&msg))
            } else {
                Ok(order)
            }
        },
    }
}


/// Every repaired order is a permutation of the expected ids: no id twice,
/// and exactly the expected ids.
pub proof fn lemma_repaired_is_permutation(
    ordered: Seq<Seq<char>>,
    exp: Set<Seq<char>>,
    catalog: Seq<Seq<char>>,
    order: Seq<Seq<char>>,
    report: OrderRepairReport,
)
    requires
        repaired(ordered, exp, catalog, order, report),
    ensures
        distinct(order),
        order.to_set() == exp,
{
    let (kept, unknown, dupes) = scan(ordered, exp);
    let missing = missing_ids(exp, kept);
    let cat = catalog_missing(catalog, missing);
    let kl = kept.len() as int;
    let cl = cat.len() as int;
    let rest = order.subrange(kl + cl, order.len() as int);
    lemma_kept_props(ordered, exp);
    lemma_cat_props(catalog, missing);
    assert forall|i: int| 0 <= i < order.len() implies (if i < kl {
        order[i] == kept[i]
    } else if i < kl + cl {
        order[i] == cat[i - kl]
    } else {
        order[i] == rest[i - kl - cl]
    }) by {
        if i < kl {
            assert(order.subrange(0, kl)[i] == order[i]);
        } else if i < kl + cl {
            assert(order.subrange(kl, kl + cl)[i - kl] == order[i]);
        } else {
            assert(rest[i - kl - cl] == order[i]);
        }
    }
    // where each element comes from
    assert forall|i: int| 0 <= i < order.len() implies (i < kl ==> kept.contains(#[trigger] order[i]))
        && (kl <= i < kl + cl ==> cat.contains(order[i]) && missing.contains(order[i])) && (kl
        + cl <= i ==> rest.to_set().contains(order[i])) by {
        if i < kl {
            assert(kept[i] == order[i]);
        } else if i < kl + cl {
            assert(cat[i - kl] == order[i]);
        } else {
            assert(rest[i - kl - cl] == order[i]);
        }
    }
    assert forall|i: int, j: int| 0 <= i < j < order.len() implies order[i] != order[j] by {
        if j < kl {
            assert(kept[i] != kept[j]);
        } else if j < kl + cl {
            if i >= kl {
                assert(cat[i - kl] != cat[j - kl]);
            } else {
                assert(missing.contains(order[j]));
                assert(kept.to_set().contains(order[i]));
            }
        } else {
            assert(rest.to_set().contains(order[j]));
            if i >= kl + cl {
                crate::seqs::lemma_lex_irrefl(order[i]);
                assert(crate::seqs::lex_lt(rest[i - kl - cl], rest[j - kl - cl]));
            } else if i >= kl {
                assert(cat.to_set().contains(order[i]));
            } else {
                assert(kept.to_set().contains(order[i]));
            }
        }
    }
    assert forall|x: Seq<char>| #[trigger] order.to_set().contains(x) <==> exp.contains(x) by {
        if order.to_set().contains(x) {
            let i = choose|i: int| 0 <= i < order.len() && order[i] == x;
            if i < kl {
            } else if i < kl + cl {
            } else {
            }
        }
        if exp.contains(x) {
            if kept.contains(x) {
                let i = choose|i: int| 0 <= i < kept.len() && kept[i] == x;
                assert(order[i] == x);
            } else if cat.contains(x) {
                let i = choose|i: int| 0 <= i < cat.len() && cat[i] == x;
                assert(order[kl + i] == x);
            } else {
                assert(!kept.to_set().contains(x));
                assert(missing.contains(x));
                assert(!cat.to_set().contains(x));
                assert(rest.to_set().contains(x));
                let i = choose|i: int| 0 <= i < rest.len() && rest[i] == x;
                assert(order[kl + cl + i] == x);
            }
        }
    }
    assert(order.to_set() =~= exp);
}

proof fn lemma_scan_clean(ordered: Seq<Seq<char>>, exp: Set<Seq<char>>)
    requires
        distinct(ordered),
        forall|i: int|
            0 <= i < ordered.len() ==> #[trigger] normalized_id(ordered[i]) == ordered[i]
                && ordered[i].len() > 0 && exp.contains(ordered[i]),
    ensures
        scan(ordered, exp) == (ordered, Seq::<Seq<char>>::empty(), 0nat),
        sanitized(ordered) == Seq::<(Seq<char>, Seq<char>)>::empty(),
    decreases ordered.len(),
{
    if ordered.len() > 0 {
        let init = ordered.drop_last();
        assert forall|i: int, j: int| 0 <= i < j < init.len() implies init[i] != init[j] by {
            assert(ordered[i] != ordered[j]);
        }
        assert forall|i: int| 0 <= i < init.len() implies #[trigger] normalized_id(init[i])
            == init[i] && init[i].len() > 0 && exp.contains(init[i]) by {
            assert(init[i] == ordered[i]);
        }
        lemma_scan_clean(init, exp);
        let x = ordered.last();
        assert(normalized_id(ordered[ordered.len() - 1]) == ordered[ordered.len() - 1]);
        assert(!init.contains(x)) by {
            if init.contains(x) {
                let i = choose|i: int| 0 <= i < init.len() && init[i] == x;
                assert(ordered[i] != ordered[ordered.len() - 1]);
            }
        }
        assert(init.push(x) =~= ordered);
    }
}

proof fn lemma_catalog_nothing_missing(catalog: Seq<Seq<char>>)
    ensures
        catalog_missing(catalog, Set::<Seq<char>>::empty()) == Seq::<Seq<char>>::empty(),
    decreases catalog.len(),
{
    if catalog.len() > 0 {
        lemma_catalog_nothing_missing(catalog.drop_last());
    }
}

/// An order that is already a clean permutation of the expected ids (distinct,
/// normalized, non-empty, exactly the expected set) is kept as is, and the
/// report records no change.
pub proof fn lemma_clean_order_unchanged(
    ordered: Seq<Seq<char>>,
    exp: Set<Seq<char>>,
    catalog: Seq<Seq<char>>,
    order: Seq<Seq<char>>,
    report: OrderRepairReport,
)
    requires
        distinct(ordered),
        forall|i: int|
            0 <= i < ordered.len() ==> #[trigger] normalized_id(ordered[i]) == ordered[i]
                && ordered[i].len() > 0,
        ordered.to_set() == exp,
        repaired(ordered, exp, catalog, order, report),
    ensures
        order == ordered,
        !report.is_changed(),
{
    assert forall|i: int| 0 <= i < ordered.len() implies #[trigger] normalized_id(ordered[i])
        == ordered[i] && ordered[i].len() > 0 && exp.contains(ordered[i]) by {
        assert(ordered.contains(ordered[i]));
        assert(ordered.to_set().contains(ordered[i]));
        assert(exp.contains(ordered[i]));
        assert(normalized_id(ordered[i]) == ordered[i]);
        assert(ordered[i].len() > 0);
    }
    lemma_scan_clean(ordered, exp);
    let missing = missing_ids(exp, ordered);
    assert(missing =~= Set::<Seq<char>>::empty());
    lemma_catalog_nothing_missing(catalog);
    let kl = ordered.len() as int;
    let rest = order.subrange(kl, order.len() as int);
    if rest.len() > 0 {
        assert(rest.to_set().contains(rest[0]));
    }
    assert(order =~= ordered);
    assert(report.sanitized_from@.map_values(|p: (String, String)| pair_view(p)).len()
        == report.sanitized_from@.len());
    assert(strs(report.dropped_unknown@).len() == report.dropped_unknown@.len());
    assert(strs(report.appended@).len() == report.appended@.len());
}

/// Two repairs of the same input agree on whether they are structural.
proof fn lemma_repaired_report_unique(
    ordered: Seq<Seq<char>>,
    exp: Set<Seq<char>>,
    catalog: Seq<Seq<char>>,
    o1: Seq<Seq<char>>,
    r1: OrderRepairReport,
    o2: Seq<Seq<char>>,
    r2: OrderRepairReport,
)
    requires
        repaired(ordered, exp, catalog, o1, r1),
        repaired(ordered, exp, catalog, o2, r2),
    ensures
        r1.is_structural() == r2.is_structural(),
{
    let (kept, unknown, dupes) = scan(ordered, exp);
    let missing = missing_ids(exp, kept);
    let cat = catalog_missing(catalog, missing);
    let rest1 = o1.subrange((kept.len() + cat.len()) as int, o1.len() as int);
    let rest2 = o2.subrange((kept.len() + cat.len()) as int, o2.len() as int);
    assert(strs(r1.appended@).len() == r1.appended@.len());
    assert(strs(r2.appended@).len() == r2.appended@.len());
    assert(strs(r1.dropped_unknown@).len() == r1.dropped_unknown@.len());
    assert(strs(r2.dropped_unknown@).len() == r2.dropped_unknown@.len());
    if rest1.len() == 0 && rest2.len() > 0 {
        assert(rest2.to_set().contains(rest2[0]));
        assert(rest1.to_set() =~= Set::<Seq<char>>::empty());
    }
    if rest2.len() == 0 && rest1.len() > 0 {
        assert(rest1.to_set().contains(rest1[0]));
        assert(rest2.to_set() =~= Set::<Seq<char>>::empty());
    }
}


/// Notes stored with an order that the host repaired after the model
/// submitted it: the model's notes marked as repaired, or a bare marker.
pub open spec fn submitted_repair_notes(notes: Option<Seq<char>>) -> Seq<char> {
    match notes {
        Some(n) => n + " [host-repaired order]"@,
        None => "host-repaired order"@,
    }
}

/// The notes written with the model's order: unchanged when the order needed
/// no repair.
pub fn submitted_order_notes(notes: Option<String>, changed: bool) -> (r: Option<String>)
    ensures
        changed ==> opt_view(r) == Some(submitted_repair_notes(opt_view(notes))),
        !changed ==> r == notes,
{
    if !changed {
        return notes;
    }
    match notes {
        Some(n) => {
            let mut out = chars_of(n.as_str());
            push_str(&mut out, " [host-repaired order]");
            Some(string_of(&out))
        },
        None => Some(string_of(&chars_of("host-repaired order"))),
    }
}

/// Notes stored when a saved order had to be repaired on reload: marked
/// once, never twice.
pub open spec fn reload_repair_notes(notes: Option<Seq<char>>) -> Seq<char> {
    match notes {
        Some(n) => if find(n, "[host-repaired order]"@) is Some {
            n
        } else {
            n + " [host-repaired order]"@
        },
        None => "host-repaired order"@,
    }
}

fn reloaded_order_notes(notes: &Option<String>) -> (r: String)
    ensures
        r@ == reload_repair_notes(opt_view(*notes)),
{
    match notes {
        Some(n) => {
            let nc = chars_of(n.as_str());
            if find_str(&nc, "[host-repaired order]", 0).is_some() {
                string_of(&nc)
            } else {
                let mut out = nc;
                push_str(&mut out, " [host-repaired order]");
                string_of(&out)
            }
        },
        None => string_of(&chars_of("host-repaired order")),
    }
}

/// What a `.thread-order.json` read back for the week is good for.
pub enum SavedOrder {
    /// Not a usable order: run the ordering agent.
    Unusable,
    /// Already a clean permutation: reuse it as is.
    Reuse(Vec<String>),
    /// Usable after repair: reuse `order`, and rewrite the file with `notes`.
    Repaired { order: Vec<String>, notes: String },
}

/// Judge a saved thread order against this week's active roots.
pub fn check_saved_order(file: &ThreadOrderFile, expected: &[String]) -> (r: SavedOrder)
    ensures
        expected@.len() == 0 ==> r is Unusable,
        expected@.len() > 0 ==> exists|order: Seq<Seq<char>>, report: OrderRepairReport|
            {
                &&& repaired(
                    strs(file.ordered_root_ids@),
                    strs(expected@).to_set(),
                    seq![],
                    order,
                    report,
                )
                &&& match r {
                    SavedOrder::Reuse(o) => strs(o@) == order && !report.is_changed(),
                    SavedOrder::Repaired { order: o, notes } => strs(o@) == order
                        && report.is_changed() && notes@ == reload_repair_notes(
                        opt_view(file.notes),
                    ),
                    SavedOrder::Unusable => false,
                }
            },
{
    let empty: Vec<String> = Vec::new();
    proof {
        assert(strs(empty@) =~= Seq::<Seq<char>>::empty());
    }
    match coerce_to_permutation(file.ordered_root_ids.as_slice(), expected, &empty) {
        Err(_) => SavedOrder::Unusable,
        Ok((order, report)) => {
            if report.changed() {
                let notes = reloaded_order_notes(&file.notes);
                SavedOrder::Repaired { order, notes }
            } else {
                SavedOrder::Reuse(order)
            }
        },
    }
}

/// The notes recorded for a week with a single active thread.
pub open spec fn single_thread_notes() -> Seq<char> {
    "single thread; skipped LLM order"@
}

/// How a week's thread order starts when no usable saved order exists.
pub enum OrderStart {
    /// One active thread is its own order; the ordering agent is not asked.
    Single { order: Vec<String>, notes: String },
    /// Ask the ordering agent.
    AskAgent,
}

/// A single active thread is ordered without the agent; any other number of
/// threads goes to the ordering agent.
pub fn start_thread_order(active: &[crate::summarize::ActiveThread]) -> (r: OrderStart)
    ensures
        (r is AskAgent) == (active@.len() != 1),
        r matches OrderStart::Single { order, notes } ==> strs(order@) == seq![active@[0].root_id@]
            && notes@ == single_thread_notes(),
{
    if active.len() == 1 {
        let order = vec![active[0].root_id.clone()];
        proof {
            assert(strs(order@) =~= seq![active@[0].root_id@]);
        }
        OrderStart::Single { order, notes: string_of(&chars_of("single thread; skipped LLM order")) }
    } else {
        OrderStart::AskAgent
    }
}

/// Where a week's thread order comes from.
pub enum OrderSource {
    /// A usable saved order; `rewrite` holds the notes to save it with when
    /// it had to be repaired.
    Saved { order: Vec<String>, rewrite: Option<String> },
    /// The one active thread, with the notes to save.
    Single { order: Vec<String>, notes: String },
    /// Ask the ordering agent.
    AskAgent,
}

/// A usable saved order comes first, then the single-thread shortcut, then
/// the ordering agent.
pub fn choose_order_source(saved: SavedOrder, active: &[crate::summarize::ActiveThread]) -> (r: OrderSource)
    ensures
        match saved {
            SavedOrder::Reuse(o) => r matches OrderSource::Saved { order, rewrite } && strs(order@) == strs(o@)
                && rewrite is None,
            SavedOrder::Repaired { order: o, notes: n } => r matches OrderSource::Saved { order, rewrite }
                && strs(order@) == strs(o@) && rewrite == Some(n),
            SavedOrder::Unusable => {
                &&& (r is AskAgent) == (active@.len() != 1)
                &&& r matches OrderSource::Single { order, notes } ==> strs(order@) == seq![active@[0].root_id@]
                    && notes@ == single_thread_notes()
            },
        },
{
    match saved {
        SavedOrder::Reuse(o) => OrderSource::Saved { order: o, rewrite: None },
        SavedOrder::Repaired { order, notes } => OrderSource::Saved { order, rewrite: Some(notes) },
        SavedOrder::Unusable => match start_thread_order(active) {
            OrderStart::Single { order, notes } => OrderSource::Single { order, notes },
            OrderStart::AskAgent => OrderSource::AskAgent,
        },
    }
}

} // verus!
