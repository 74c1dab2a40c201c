//! Reading display values back out of the key-value store.
use vstd::prelude::*;
use vstd::string::*;
use crate::form::{Field, Source, Type};
use crate::update::starts_with;

verus! {

#[verifier::external_type_specification]
#[verifier::external_body]
#[verifier::reject_recursive_types(K)]
#[verifier::reject_recursive_types(V)]
#[verifier::reject_recursive_types(S)]
pub struct ExAHashMap<K, V, S>(ahash::AHashMap<K, V, S>);

#[verifier::external_type_specification]
#[verifier::external_body]
pub struct ExRandomState(ahash::RandomState);

/// A snapshot of the store: keys to values.
pub type Settings = ahash::AHashMap<String, String>;

/// The pairs that a settings map holds.
pub uninterp spec fn settings_map(m: ahash::AHashMap<String, String>) -> Map<Seq<char>, Seq<char>>;

/// Relies on AHashMap::get: the value stored under `key`, if any.
#[verifier::external_body]
fn settings_get<'a>(m: &'a Settings, key: &str) -> (r: Option<&'a String>)
    ensures
        match r {
            Some(v) => settings_map(*m).contains_key(key@) && settings_map(*m)[key@] == v@,
            None => !settings_map(*m).contains_key(key@),
        },
{
    m.get(key)
}

/// Relies on AHashMap's iteration (through its `Deref` to `HashMap`): each
/// stored pair is visited exactly once, in an order that is not specified.
#[verifier::external_body]
fn settings_entries(m: &Settings) -> (r: Vec<(String, String)>)
    ensures
        forall|i: int| 0 <= i < r@.len() ==> #[trigger] settings_map(*m).contains_key(r@[i].0@)
            && settings_map(*m)[r@[i].0@] == r@[i].1@,
        forall|k: Seq<char>| #[trigger] settings_map(*m).contains_key(k)
            ==> exists|i: int| 0 <= i < r@.len() && r@[i].0@ == k,
        forall|i: int, j: int| 0 <= i < j < r@.len() ==> r@[i].0@ != r@[j].0@,
{
    m.iter().map(|(k, v)| (k.clone(), v.clone())).collect()
}

/// Strict lexicographic order of strings, by code point (which is the order
/// of their UTF-8 bytes).
pub open spec fn lex_lt(a: Seq<char>, b: Seq<char>) -> bool
    decreases a.len(),
{
    if a.len() == 0 {
        b.len() > 0
    } else if b.len() == 0 {
        false
    } else if a[0] != b[0] {
        a[0] < b[0]
    } else {
        lex_lt(a.drop_first(), b.drop_first())
    }
}

/// Relies on `<str as PartialOrd>::lt`: strings compare lexicographically
/// by their bytes.
#[verifier::external_body]
fn key_lt(a: &str, b: &str) -> (r: bool)
    ensures
        r == lex_lt(a@, b@),
{
    a < b
}

pub proof fn lemma_lex_lt_irreflexive(a: Seq<char>)
    ensures
        !lex_lt(a, a),
    decreases a.len(),
{
    if a.len() > 0 {
        lemma_lex_lt_irreflexive(a.drop_first());
    }
}

pub proof fn lemma_lex_lt_total(a: Seq<char>, b: Seq<char>)
    ensures
        a == b || lex_lt(a, b) || lex_lt(b, a),
    decreases a.len(),
{
    if a.len() > 0 && b.len() > 0 && a[0] == b[0] {
        lemma_lex_lt_total(a.drop_first(), b.drop_first());
        if a.drop_first() == b.drop_first() {
            assert(a =~= seq![a[0]] + a.drop_first());
            assert(b =~= seq![b[0]] + b.drop_first());
        }
    } else if a.len() > 0 && b.len() > 0 {
        assert(a[0] < b[0] || b[0] < a[0]);
    } else if a.len() == 0 && b.len() == 0 {
        assert(a =~= b);
    }
}

pub proof fn lemma_lex_lt_transitive(a: Seq<char>, b: Seq<char>, c: Seq<char>)
    requires
        lex_lt(a, b),
        lex_lt(b, c),
    ensures
        lex_lt(a, c),
    decreases a.len(),
{
    if a.len() > 0 && b.len() > 0 && c.len() > 0 && a[0] == b[0] && b[0] == c[0] {
        lemma_lex_lt_transitive(a.drop_first(), b.drop_first(), c.drop_first());
    }
}

/// `k` is the key of a field or of one of its indexed elements.
pub open spec fn in_array(k: Seq<char>, key: Seq<char>) -> bool {
    k == key || (key + "."@).is_prefix_of(k)
}

/// The keys of `r` increase strictly.
pub open spec fn sorted_keys(r: Seq<(String, String)>) -> bool {
    forall|i: int, j: int| 0 <= i < j < r.len() ==> lex_lt(r[i].0@, r[j].0@)
}

/// `r` holds, in increasing key order, exactly the stored pairs of `key`
/// and of its indexed elements.
pub open spec fn is_array_scan(m: Map<Seq<char>, Seq<char>>, key: Seq<char>, r: Seq<(String, String)>) -> bool {
    &&& sorted_keys(r)
    &&& forall|i: int| 0 <= i < r.len() ==> #[trigger] in_array(r[i].0@, key)
        && m.contains_key(r[i].0@) && m[r[i].0@] == r[i].1@
    &&& forall|k: Seq<char>| #[trigger] m.contains_key(k) && in_array(k, key)
        ==> exists|i: int| 0 <= i < r.len() && r[i].0@ == k
}

/// The value stored under `id`, or the empty string.
pub open spec fn stored_value(m: Map<Seq<char>, Seq<char>>, id: Seq<char>) -> Seq<char> {
    if m.contains_key(id) { m[id] } else { Seq::empty() }
}

/// The label of the first option whose value is `v`.
pub open spec fn static_label(items: Seq<(String, String)>, v: Seq<char>) -> Option<Seq<char>>
    decreases items.len(),
{
    if items.len() == 0 {
        None
    } else if items[0].0@ == v {
        Some(items[0].1@)
    } else {
        static_label(items.drop_first(), v)
    }
}

/// `r` is the value of the least stored key of the array `key`, or empty
/// when it has none.
pub open spec fn is_first_array_value(m: Map<Seq<char>, Seq<char>>, key: Seq<char>, r: Seq<char>) -> bool {
    if exists|k: Seq<char>| #[trigger] m.contains_key(k) && in_array(k, key) {
        exists|k: Seq<char>|
            #[trigger] m.contains_key(k) && in_array(k, key) && r == m[k]
            && forall|k2: Seq<char>| #[trigger] m.contains_key(k2) && in_array(k2, key) ==> k2 == k || lex_lt(k, k2)
    } else {
        r.len() == 0
    }
}

/// What `format` shows for `field`, given the store's pairs.
pub open spec fn formatted(m: Map<Seq<char>, Seq<char>>, field: Field, r: Seq<char>) -> bool {
    match field.typ_ {
        Type::Select { source: Source::Static(items), multi: false } => {
            let v = stored_value(m, field.id@);
            r == match static_label(items@, v) {
                Some(label) => label,
                None => v,
            }
        },
        Type::Array => is_first_array_value(m, field.id@, r),
        _ => r == stored_value(m, field.id@),
    }
}

/// Display values of fields, read from a store snapshot.
pub trait SettingsValues {
    /// The pairs held.
    spec fn contents(&self) -> Map<Seq<char>, Seq<char>>;

    /// The pairs stored for the field `key` and its indexed elements, in
    /// increasing key order.
    fn array_values(&self, key: &str) -> (r: Vec<(String, String)>)
        ensures
            is_array_scan(self.contents(), key@, r@),
    ;

    /// The text shown for `field`: the label of a static single select,
    /// the first element of an array, the stored value otherwise.
    fn format(&self, field: &Field) -> (r: String)
        ensures
            formatted(self.contents(), *field, r@),
    ;
}

/// Whether `k` is the field `key` or one of its indexed elements.
fn key_in_array(k: &String, key: &str, dotted: &String) -> (r: bool)
    requires
        dotted@ == key@ + "."@,
    ensures
        r == in_array(k@, key@),
{
    let whole: String = key.to_owned();
    *k == whole || starts_with(k.as_str(), dotted.as_str())
}

/// Inserts `x` into `out`, keeping the keys strictly increasing.
fn insert_sorted(out: &mut Vec<(String, String)>, x: (String, String))
    requires
        sorted_keys(old(out)@),
        forall|i: int| 0 <= i < old(out)@.len() ==> old(out)@[i].0@ != x.0@,
    ensures
        sorted_keys(final(out)@),
        exists|p: int| 0 <= p <= old(out)@.len() && final(out)@ == old(out)@.insert(p, x),
{
    let mut p: usize = 0;
    while p < out.len() && !key_lt(x.0.as_str(), out[p].0.as_str())
        invariant
            p <= out@.len(),
            out@ == old(out)@,
            forall|i: int| 0 <= i < out@.len() ==> out@[i].0@ != x.0@,
            forall|j: int| 0 <= j < p ==> lex_lt(out@[j].0@, x.0@),
        decreases out@.len() - p,
    {
        proof {
            lemma_lex_lt_total(out@[p as int].0@, x.0@);
        }
        p = p + 1;
    }
    let ghost before = out@;
    out.insert(p, x);
    proof {
        assert forall|i: int, j: int| 0 <= i < j < out@.len() implies lex_lt(out@[i].0@, out@[j].0@) by {
            if j < p {
            } else if j == p {
            } else if i < p {
                lemma_lex_lt_transitive(out@[i].0@, x.0@, before[p as int].0@);
                if j - 1 > p {
                    lemma_lex_lt_transitive(out@[i].0@, before[p as int].0@, before[j - 1].0@);
                }
            } else if i == p {
                if j - 1 > p {
                    lemma_lex_lt_transitive(x.0@, before[p as int].0@, before[j - 1].0@);
                }
            } else {
            }
        }
        assert(out@ == before.insert(p as int, x));
    }
}

/// Every pair of `out` is one of the first `n` entries, of the array `key`.
spec fn drawn_from(out: Seq<(String, String)>, entries: Seq<(String, String)>, n: int, key: Seq<char>) -> bool {
    forall|q: int| 0 <= q < out.len() ==> #[trigger] has_source(out[q], entries, n, key)
}

/// `x` is one of the first `n` entries, of the array `key`.
spec fn has_source(x: (String, String), entries: Seq<(String, String)>, n: int, key: Seq<char>) -> bool {
    exists|a: int| 0 <= a < n && #[trigger] same_entry(x, entries[a], key)
}

/// `x` holds the pair of entry `e`, which belongs to the array `key`.
spec fn same_entry(x: (String, String), e: (String, String), key: Seq<char>) -> bool {
    x.0@ == e.0@ && x.1@ == e.1@ && in_array(e.0@, key)
}

/// Every one of the first `n` entries that belongs to the array `key` is in `out`.
spec fn covers(out: Seq<(String, String)>, entries: Seq<(String, String)>, n: int, key: Seq<char>) -> bool {
    forall|a: int| 0 <= a < n && #[trigger] in_array(entries[a].0@, key)
        ==> exists|q: int| 0 <= q < out.len() && out[q].0@ == entries[a].0@
}

proof fn lemma_scan_skip(out: Seq<(String, String)>, entries: Seq<(String, String)>, n: int, key: Seq<char>)
    requires
        0 <= n < entries.len(),
        drawn_from(out, entries, n, key),
        covers(out, entries, n, key),
        !in_array(entries[n].0@, key),
    ensures
        drawn_from(out, entries, n + 1, key),
        covers(out, entries, n + 1, key),
{
    assert forall|q: int| 0 <= q < out.len() implies has_source(out[q], entries, n + 1, key) by {
        assert(has_source(out[q], entries, n, key));
        let a = choose|a: int| 0 <= a < n && #[trigger] same_entry(out[q], entries[a], key);
        assert(same_entry(out[q], entries[a], key));
    }
}

proof fn lemma_scan_add(
    before: Seq<(String, String)>,
    out: Seq<(String, String)>,
    p: int,
    x: (String, String),
    entries: Seq<(String, String)>,
    n: int,
    key: Seq<char>,
)
    requires
        0 <= n < entries.len(),
        0 <= p <= before.len(),
        out == before.insert(p, x),
        x.0@ == entries[n].0@,
        x.1@ == entries[n].1@,
        in_array(entries[n].0@, key),
        drawn_from(before, entries, n, key),
        covers(before, entries, n, key),
    ensures
        drawn_from(out, entries, n + 1, key),
        covers(out, entries, n + 1, key),
{
    assert forall|q: int| 0 <= q < out.len() implies has_source(out[q], entries, n + 1, key) by {
        if q < p {
            assert(out[q] == before[q]);
            assert(has_source(before[q], entries, n, key));
            let a = choose|a: int| 0 <= a < n && #[trigger] same_entry(before[q], entries[a], key);
            assert(same_entry(out[q], entries[a], key));
        } else if q > p {
            assert(out[q] == before[q - 1]);
            assert(has_source(before[q - 1], entries, n, key));
            let a = choose|a: int| 0 <= a < n && #[trigger] same_entry(before[q - 1], entries[a], key);
            assert(same_entry(out[q], entries[a], key));
        } else {
            assert(out[q] == x);
            assert(same_entry(out[q], entries[n], key));
        }
    }
    assert forall|a: int| 0 <= a < n + 1 && #[trigger] in_array(entries[a].0@, key)
        implies exists|q: int| 0 <= q < out.len() && out[q].0@ == entries[a].0@ by {
        if a < n {
            let q = choose|q: int| 0 <= q < before.len() && before[q].0@ == entries[a].0@;
            if q < p {
                assert(out[q] == before[q]);
            } else {
                assert(out[q + 1] == before[q]);
            }
        } else {
            assert(out[p] == x);
        }
    }
}

/// No two entries share a key.
spec fn distinct_keys(entries: Seq<(String, String)>) -> bool {
    forall|a: int, b: int| 0 <= a < b < entries.len() ==> entries[a].0@ != entries[b].0@
}

proof fn lemma_fresh_key(out: Seq<(String, String)>, entries: Seq<(String, String)>, n: int, key: Seq<char>)
    requires
        0 <= n < entries.len(),
        distinct_keys(entries),
        drawn_from(out, entries, n, key),
    ensures
        forall|q: int| 0 <= q < out.len() ==> out[q].0@ != entries[n].0@,
{
    assert forall|q: int| 0 <= q < out.len() implies out[q].0@ != entries[n].0@ by {
        assert(has_source(out[q], entries, n, key));
        let a = choose|a: int| 0 <= a < n && #[trigger] same_entry(out[q], entries[a], key);
    }
}

impl SettingsValues for Settings {
    open spec fn contents(&self) -> Map<Seq<char>, Seq<char>> {
        settings_map(*self)
    }

    fn array_values(&self, key: &str) -> (r: Vec<(String, String)>) {
        let entries = settings_entries(self);
        let ghost m = settings_map(*self);
        let mut dotted: String = key.to_owned();
        dotted.append(".");
        let mut out: Vec<(String, String)> = Vec::new();
        let mut i: usize = 0;
        while i < entries.len()
            invariant
                i <= entries@.len(),
                dotted@ == key@ + "."@,
                sorted_keys(out@),
                distinct_keys(entries@),
                m == settings_map(*self),
                forall|a: int| 0 <= a < entries@.len() ==> #[trigger] m.contains_key(entries@[a].0@)
                    && m[entries@[a].0@] == entries@[a].1@,
                forall|k: Seq<char>| #[trigger] m.contains_key(k)
                    ==> exists|a: int| 0 <= a < entries@.len() && entries@[a].0@ == k,
                drawn_from(out@, entries@, i as int, key@),
                covers(out@, entries@, i as int, key@),
            decreases entries@.len() - i,
        {
            if key_in_array(&entries[i].0, key, &dotted) {
                let ghost before = out@;
                let x = (entries[i].0.clone(), entries[i].1.clone());
                proof {
                    lemma_fresh_key(before, entries@, i as int, key@);
                }
                insert_sorted(&mut out, x);
                proof {
                    let p = choose|p: int| 0 <= p <= before.len() && out@ == before.insert(p, x);
                    lemma_scan_add(before, out@, p, x, entries@, i as int, key@);
                }
            } else {
                proof {
                    lemma_scan_skip(out@, entries@, i as int, key@);
                }
            }
            i = i + 1;
        }
        proof {
            assert forall|q: int| 0 <= q < out@.len() implies #[trigger] in_array(out@[q].0@, key@)
                && m.contains_key(out@[q].0@) && m[out@[q].0@] == out@[q].1@ by {
                assert(has_source(out@[q], entries@, entries@.len() as int, key@));
                let a = choose|a: int| 0 <= a < entries@.len() && #[trigger] same_entry(out@[q], entries@[a], key@);
                assert(m.contains_key(entries@[a].0@));
            }
            assert forall|k: Seq<char>| #[trigger] m.contains_key(k) && in_array(k, key@)
                implies exists|q: int| 0 <= q < out@.len() && out@[q].0@ == k by {
                let a = choose|a: int| 0 <= a < entries@.len() && entries@[a].0@ == k;
                assert(in_array(entries@[a].0@, key@));
            }
        }
        out
    }

    fn format(&self, field: &Field) -> (r: String) {
        match &field.typ_ {
            Type::Select { source: Source::Static(items), multi: false } => {
                let value = match settings_get(self, field.id.as_str()) {
                    Some(v) => v.clone(),
                    None => String::new(),
                };
                let mut i: usize = 0;
                assert(items@.subrange(0, items@.len() as int) =~= items@);
                while i < items.len()
                    invariant
                        i <= items@.len(),
                        value@ == stored_value(settings_map(*self), field.id@),
                        field.typ_ == (Type::Select { source: Source::Static(*items), multi: false }),
                        static_label(items@, value@) == static_label(items@.subrange(i as int, items@.len() as int), value@),
                    decreases items@.len() - i,
                {
                    let ghost rest = items@.subrange(i as int, items@.len() as int);
                    assert(rest.drop_first() =~= items@.subrange(i + 1, items@.len() as int));
                    assert(rest[0] == items@[i as int]);
                    if items[i].0 == value {
                        assert(static_label(rest, value@) == Some(items@[i as int].1@));
                        return items[i].1.clone();
                    }
                    i = i + 1;
                }
                value
            },
            Type::Array => {
                let values = self.array_values(field.id.as_str());
                if values.len() == 0 {
                    proof {
                        assert forall|k: Seq<char>| #[trigger] settings_map(*self).contains_key(k)
                            implies !in_array(k, field.id@) by {
                            if in_array(k, field.id@) {
                                assert(settings_map(*self).contains_key(k) && in_array(k, field.id@));
                            }
                        }
                    }
                    String::new()
                } else {
                    proof {
                        let k = values@[0].0@;
                        assert(is_array_scan(settings_map(*self), field.id@, values@));
                        assert(in_array(values@[0].0@, field.id@));
                        assert(settings_map(*self).contains_key(k) && in_array(k, field.id@));
                        assert forall|k2: Seq<char>| #[trigger] settings_map(*self).contains_key(k2) && in_array(k2, field.id@)
                            implies k2 == k || lex_lt(k, k2) by {
                            let q = choose|q: int| 0 <= q < values@.len() && values@[q].0@ == k2;
                            if q > 0 {
                                assert(lex_lt(values@[0].0@, values@[q].0@));
                            }
                        }
                    }
                    values[0].1.clone()
                }
            },
            _ => {
                match settings_get(self, field.id.as_str()) {
                    Some(v) => v.clone(),
                    None => String::new(),
                }
            },
        }
    }
}

} // verus!
