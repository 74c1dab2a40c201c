//! Properties of the planner, stated over its specification.
use vstd::prelude::*;
use crate::form::{type_is_multivalue, Expression, FormData, FormValue};
use crate::keys::{digit_char, indexed_key, num_digits, padded};
use crate::settings::{
    in_array, is_array_scan, lemma_lex_lt_irreflexive, lemma_lex_lt_transitive, lex_lt,
};
use crate::update::{
    array_pairs, entry_pairs, expr_pairs, has_identifier, form_id, insert_ops, is_control, list_clears,
    list_deletes, list_removals, plan, UpdateView,
};

verus! {

/// An update of a record starts with the one clear of the record's keys,
/// `{prefix}.{id}.`, and clears nothing else.
pub proof fn record_update_clears_first(d: FormData)
    requires
        d.schema.typ is Record,
        d.is_update,
        has_identifier(d),
    ensures
        plan(d).len() >= 1,
        plan(d)[0] == (UpdateView::Clear {
            prefix: d.schema.typ->Record_prefix@ + "."@ + form_id(d) + "."@,
        }),
        forall|i: int| 1 <= i < plan(d).len() ==> !(plan(d)[i] is Clear),
{
}

/// Creating a record or an entry asserts that its keys are new; updating
/// it does not.
pub proof fn create_asserts_empty(d: FormData)
    requires
        !(d.schema.typ is List),
        has_identifier(d),
    ensures
        forall|i: int| 0 <= i < plan(d).len() && #[trigger] plan(d)[i] is Insert
            ==> plan(d)[i]->Insert_assert_empty == !d.is_update,
{
}

/// A one-element array is stored under the bare field id.
pub proof fn single_element_array_key(key: Seq<char>, a: Vec<String>)
    requires
        !is_control(key),
        a@.len() == 1,
    ensures
        entry_pairs(key, FormValue::Array(a)) == seq![(key, a@[0]@)],
{
}

/// The keys of an expression with two conditions: each condition and its
/// result at indices `0` and `1`, the fallback at `2`, all one digit wide.
pub proof fn two_condition_expression_keys(key: Seq<char>, e: Expression)
    requires
        !is_control(key),
        e.if_thens@.len() == 2,
    ensures
        entry_pairs(key, FormValue::Expression(e)).map_values(|p: (Seq<char>, Seq<char>)| p.0) == seq![
            key + ".0.if"@,
            key + ".0.then"@,
            key + ".1.if"@,
            key + ".1.then"@,
            key + ".2.else"@,
        ],
{
    reveal_strlit(".");
    reveal_strlit(".if");
    reveal_strlit(".then");
    reveal_strlit(".else");
    reveal_strlit(".0.if");
    reveal_strlit(".0.then");
    reveal_strlit(".1.if");
    reveal_strlit(".1.then");
    reveal_strlit(".2.else");
    assert(num_digits(2) == 1);
    reveal_with_fuel(padded, 2);
    assert(padded(0, 1) =~= seq!['0']);
    assert(padded(1, 1) =~= seq!['1']);
    assert(padded(2, 1) =~= seq!['2']);
    reveal_with_fuel(expr_pairs, 3);
    let c = e.if_thens@;
    let k0 = indexed_key(key, 0, 1);
    let k1 = indexed_key(key, 1, 1);
    let k2 = indexed_key(key, 2, 1);
    assert(k0 =~= key + seq!['.', '0']);
    assert(k1 =~= key + seq!['.', '1']);
    assert(k2 =~= key + seq!['.', '2']);
    assert(expr_pairs(key, c, 1, 2) =~= seq![
        (k0 + ".if"@, c[0].if_@),
        (k0 + ".then"@, c[0].then_@),
        (k1 + ".if"@, c[1].if_@),
        (k1 + ".then"@, c[1].then_@),
    ]);
    assert(k0 + ".if"@ =~= key + ".0.if"@);
    assert(k0 + ".then"@ =~= key + ".0.then"@);
    assert(k1 + ".if"@ =~= key + ".1.if"@);
    assert(k1 + ".then"@ =~= key + ".1.then"@);
    assert(k2 + ".else"@ =~= key + ".2.else"@);
    let r = entry_pairs(key, FormValue::Expression(e)).map_values(|p: (Seq<char>, Seq<char>)| p.0);
    assert(r =~= seq![
        key + ".0.if"@,
        key + ".0.then"@,
        key + ".1.if"@,
        key + ".1.then"@,
        key + ".2.else"@,
    ]);
}

proof fn lemma_list_clears_has(fields: Seq<crate::form::Field>, i: int)
    requires
        0 <= i < fields.len(),
        type_is_multivalue(fields[i].typ_),
    ensures
        list_clears(fields).contains(UpdateView::Clear { prefix: fields[i].id@ + "."@ }),
    decreases fields.len(),
{
    let c = UpdateView::Clear { prefix: fields[i].id@ + "."@ };
    let rest = list_clears(fields.drop_last());
    let tail = list_clears(fields);
    if i == fields.len() - 1 {
        assert(tail[rest.len() as int] == c);
    } else {
        lemma_list_clears_has(fields.drop_last(), i);
        let j = choose|j: int| 0 <= j < rest.len() && rest[j] == c;
        assert(tail[j] == c);
    }
}

proof fn lemma_list_deletes_has(fields: Seq<crate::form::Field>, vals: Seq<(String, FormValue)>, i: int)
    requires
        0 <= i < fields.len(),
        type_is_multivalue(fields[i].typ_),
    ensures
        list_deletes(fields, vals).contains(fields[i].id@),
    decreases fields.len(),
{
    let rest = list_deletes(fields.drop_last(), vals);
    let all = list_deletes(fields, vals);
    if i == fields.len() - 1 {
        assert(all[rest.len() as int] == fields[i].id@);
    } else {
        lemma_list_deletes_has(fields.drop_last(), vals, i);
        let j = choose|j: int| 0 <= j < rest.len() && rest[j] == fields[i].id@;
        assert(all[j] == fields[i].id@);
    }
}

/// Updating a list clears the whole key range `{id}.` of each multivalue
/// field and names the field in the one batched delete, so that an emptied
/// field leaves nothing behind.
pub proof fn list_update_removes_multivalue(d: FormData, i: int)
    requires
        d.schema.typ is List,
        d.is_update,
        0 <= i < d.schema.fields@.len(),
        type_is_multivalue(d.schema.fields@[i].typ_),
    ensures
        plan(d).contains(UpdateView::Clear { prefix: d.schema.fields@[i].id@ + "."@ }),
        exists|j: int| 0 <= j < plan(d).len() && #[trigger] plan(d)[j] is Delete
            && plan(d)[j]->Delete_keys.contains(d.schema.fields@[i].id@),
{
    let fields = d.schema.fields@;
    let f = fields[i];
    lemma_list_clears_has(fields, i);
    lemma_list_deletes_has(fields, d.values@, i);
    let clears = list_clears(fields);
    let keys = list_deletes(fields, d.values@);
    let p = plan(d);
    assert(p == list_removals(fields, d.values@) + insert_ops(None, d.values@, false));
    let j = choose|j: int| 0 <= j < clears.len() && clears[j] == UpdateView::Clear { prefix: f.id@ + "."@ };
    assert(p[j] == clears[j]);
    assert(keys.len() > 0);
    assert(p[clears.len() as int] == UpdateView::Delete { keys });
}

pub open spec fn pow10(w: nat) -> nat
    decreases w,
{
    if w == 0 { 1 } else { 10 * pow10((w - 1) as nat) }
}

proof fn lemma_padded_len(n: nat, w: nat)
    ensures
        padded(n, w).len() == w,
    decreases w,
{
    if w > 0 {
        lemma_padded_len(n / 10, (w - 1) as nat);
    }
}

proof fn lemma_below_pow10(n: nat)
    ensures
        n < pow10(num_digits(n)),
    decreases n,
{
    reveal_with_fuel(pow10, 2);
    if n >= 10 {
        lemma_below_pow10(n / 10);
        assert(pow10(num_digits(n)) == 10 * pow10(num_digits(n / 10)));
    }
}

proof fn lemma_lex_push(a: Seq<char>, b: Seq<char>, x: char, y: char)
    requires
        a.len() == b.len(),
        lex_lt(a, b),
    ensures
        lex_lt(a.push(x), b.push(y)),
    decreases a.len(),
{
    if a[0] == b[0] {
        assert(a.push(x).drop_first() =~= a.drop_first().push(x));
        assert(b.push(y).drop_first() =~= b.drop_first().push(y));
        lemma_lex_push(a.drop_first(), b.drop_first(), x, y);
    }
}

proof fn lemma_lex_push_last(p: Seq<char>, x: char, y: char)
    requires
        x < y,
    ensures
        lex_lt(p.push(x), p.push(y)),
    decreases p.len(),
{
    if p.len() > 0 {
        assert(p.push(x).drop_first() =~= p.drop_first().push(x));
        assert(p.push(y).drop_first() =~= p.drop_first().push(y));
        lemma_lex_push_last(p.drop_first(), x, y);
    }
}

proof fn lemma_lex_common_prefix(c: Seq<char>, a: Seq<char>, b: Seq<char>)
    ensures
        lex_lt(c + a, c + b) == lex_lt(a, b),
    decreases c.len(),
{
    if c.len() > 0 {
        assert((c + a).drop_first() =~= c.drop_first() + a);
        assert((c + b).drop_first() =~= c.drop_first() + b);
        lemma_lex_common_prefix(c.drop_first(), a, b);
    } else {
        assert(c + a =~= a);
        assert(c + b =~= b);
    }
}

proof fn lemma_padded_order(i: nat, j: nat, w: nat)
    requires
        i < j < pow10(w),
    ensures
        lex_lt(padded(i, w), padded(j, w)),
    decreases w,
{
    if w > 0 {
        let w1 = (w - 1) as nat;
        assert(j / 10 < pow10(w1));
        lemma_padded_len(i / 10, w1);
        lemma_padded_len(j / 10, w1);
        if i / 10 < j / 10 {
            lemma_padded_order(i / 10, j / 10, w1);
            lemma_lex_push(padded(i / 10, w1), padded(j / 10, w1), digit_char(i % 10), digit_char(j % 10));
        } else {
            assert(i % 10 < j % 10);
            assert(digit_char(i % 10) < digit_char(j % 10));
            lemma_lex_push_last(padded(i / 10, w1), digit_char(i % 10), digit_char(j % 10));
        }
    }
}

proof fn lemma_array_pairs_at(key: Seq<char>, a: Seq<String>, w: nat, n: nat)
    ensures
        array_pairs(key, a, w, n).len() == n,
        forall|i: int| 0 <= i < n ==> #[trigger] array_pairs(key, a, w, n)[i] == (indexed_key(key, i as nat, w), a[i]@),
    decreases n,
{
    if n > 0 {
        lemma_array_pairs_at(key, a, w, (n - 1) as nat);
    }
}

/// Some scanned pair has the key `k`.
spec fn scanned(r: Seq<(String, String)>, k: Seq<char>) -> bool {
    exists|q: int| 0 <= q < r.len() && (#[trigger] r[q]).0@ == k
}

/// The array index that a stored key of an array spells.
spec fn index_of(k: Seq<char>, key: Seq<char>, w: nat, n: nat) -> int {
    choose|i: int| 0 <= i < n && k == #[trigger] indexed_key(key, i as nat, w)
}

/// Writing an array of two or more strings and scanning its keys back in
/// key order gives the elements in their original order: the zero-padded
/// indices sort as the numbers do.
pub proof fn array_round_trip(key: Seq<char>, a: Vec<String>, m: Map<Seq<char>, Seq<char>>, r: Seq<(String, String)>)
    requires
        !is_control(key),
        a@.len() > 1,
        forall|j: int| 0 <= j < entry_pairs(key, FormValue::Array(a)).len() ==> {
            let p = #[trigger] entry_pairs(key, FormValue::Array(a))[j];
            m.contains_key(p.0) && m[p.0] == p.1
        },
        forall|k: Seq<char>| #[trigger] m.contains_key(k) && in_array(k, key)
            ==> exists|j: int| 0 <= j < entry_pairs(key, FormValue::Array(a)).len()
                && entry_pairs(key, FormValue::Array(a))[j].0 == k,
        is_array_scan(m, key, r),
    ensures
        r.len() == a@.len(),
        forall|i: int| 0 <= i < r.len() ==> #[trigger] r[i].1@ == a@[i]@,
{
    let n = a@.len();
    let w = num_digits((n - 1) as nat);
    let ps = entry_pairs(key, FormValue::Array(a));
    assert(ps == array_pairs(key, a@, w, n));
    lemma_array_pairs_at(key, a@, w, n);
    lemma_below_pow10((n - 1) as nat);
    assert forall|i: int, j: int| 0 <= i < j < n implies #[trigger] lex_lt(indexed_key(key, i as nat, w), indexed_key(key, j as nat, w)) by {
        lemma_padded_order(i as nat, j as nat, w);
        lemma_lex_common_prefix(key + seq!['.'], padded(i as nat, w), padded(j as nat, w));
    }
    // Each scanned key spells one index, and every index is scanned.
    assert forall|q: int| 0 <= q < r.len() implies 0 <= #[trigger] index_of(r[q].0@, key, w, n) < n
        && r[q].0@ == indexed_key(key, index_of(r[q].0@, key, w, n) as nat, w)
        && r[q].1@ == a@[index_of(r[q].0@, key, w, n)]@ by {
        assert(in_array(r[q].0@, key));
        let j = choose|j: int| 0 <= j < ps.len() && ps[j].0 == r[q].0@;
        assert(ps[j] == (indexed_key(key, j as nat, w), a@[j]@));
        assert(0 <= j < n && r[q].0@ == indexed_key(key, j as nat, w));
        let x = index_of(r[q].0@, key, w, n);
        if x < j {
            assert(lex_lt(indexed_key(key, x as nat, w), indexed_key(key, j as nat, w)));
            lemma_lex_lt_irreflexive(r[q].0@);
        } else if x > j {
            assert(lex_lt(indexed_key(key, j as nat, w), indexed_key(key, x as nat, w)));
            lemma_lex_lt_irreflexive(r[q].0@);
        }
    }
    assert forall|i: int| 0 <= i < n implies #[trigger] scanned(r, indexed_key(key, i as nat, w)) by {
        let k = indexed_key(key, i as nat, w);
        assert(ps[i] == (k, a@[i]@));
        assert(k =~= key + "."@ + padded(i as nat, w)) by {
            reveal_strlit(".");
        }
        assert((key + "."@).is_prefix_of(k)) by {
            reveal_strlit(".");
            assert(k.subrange(0, (key + "."@).len() as int) =~= key + "."@);
        }
        assert(m.contains_key(k) && in_array(k, key));
    }
    // Scanned indices increase strictly.
    assert forall|q1: int, q2: int| 0 <= q1 < q2 < r.len() implies index_of(r[q1].0@, key, w, n) < index_of(r[q2].0@, key, w, n) by {
        let i1 = index_of(r[q1].0@, key, w, n);
        let i2 = index_of(r[q2].0@, key, w, n);
        assert(lex_lt(r[q1].0@, r[q2].0@));
        if i1 == i2 {
            lemma_lex_lt_irreflexive(r[q1].0@);
        } else if i1 > i2 {
            assert(lex_lt(indexed_key(key, i2 as nat, w), indexed_key(key, i1 as nat, w)));
            lemma_lex_lt_transitive(r[q1].0@, r[q2].0@, r[q1].0@);
            lemma_lex_lt_irreflexive(r[q1].0@);
        }
    }
    lemma_index_identity(key, w, n, r);
}

proof fn lemma_index_identity(key: Seq<char>, w: nat, n: nat, r: Seq<(String, String)>)
    requires
        forall|q: int| 0 <= q < r.len() ==> 0 <= #[trigger] index_of(r[q].0@, key, w, n) < n
            && r[q].0@ == indexed_key(key, index_of(r[q].0@, key, w, n) as nat, w),
        forall|i: int| 0 <= i < n ==> #[trigger] scanned(r, indexed_key(key, i as nat, w)),
        forall|q1: int, q2: int| 0 <= q1 < q2 < r.len() ==> index_of(r[q1].0@, key, w, n) < index_of(r[q2].0@, key, w, n),
        forall|i: int, j: int| 0 <= i < j < n ==> #[trigger] lex_lt(indexed_key(key, i as nat, w), indexed_key(key, j as nat, w)),
        n > 0,
    ensures
        r.len() == n,
        forall|q: int| 0 <= q < r.len() ==> index_of(r[q].0@, key, w, n) == q,
{
    if r.len() > 0 {
        lemma_index_prefix(key, w, n, r, r.len() - 1);
        let last: int = n - 1;
        assert(scanned(r, indexed_key(key, last as nat, w)));
        let q = choose|q: int| 0 <= q < r.len() && (#[trigger] r[q]).0@ == indexed_key(key, last as nat, w);
        lemma_spelled_index(key, w, n, r, q, last);
        assert(index_of(r[r.len() - 1].0@, key, w, n) == r.len() - 1);
        assert(index_of(r[q].0@, key, w, n) == q);
    } else {
        let first: int = 0;
        assert(scanned(r, indexed_key(key, first as nat, w)));
    }
}

/// A scanned key that spells index `i` has index `i`.
proof fn lemma_spelled_index(key: Seq<char>, w: nat, n: nat, r: Seq<(String, String)>, q: int, i: int)
    requires
        0 <= q < r.len(),
        0 <= i < n,
        r[q].0@ == indexed_key(key, i as nat, w),
        0 <= index_of(r[q].0@, key, w, n) < n,
        r[q].0@ == indexed_key(key, index_of(r[q].0@, key, w, n) as nat, w),
        forall|i: int, j: int| 0 <= i < j < n ==> #[trigger] lex_lt(indexed_key(key, i as nat, w), indexed_key(key, j as nat, w)),
    ensures
        index_of(r[q].0@, key, w, n) == i,
{
    let x = index_of(r[q].0@, key, w, n);
    if x < i {
        assert(lex_lt(indexed_key(key, x as nat, w), indexed_key(key, i as nat, w)));
        lemma_lex_lt_irreflexive(r[q].0@);
    } else if x > i {
        assert(lex_lt(indexed_key(key, i as nat, w), indexed_key(key, x as nat, w)));
        lemma_lex_lt_irreflexive(r[q].0@);
    }
}

proof fn lemma_index_prefix(key: Seq<char>, w: nat, n: nat, r: Seq<(String, String)>, q: int)
    requires
        0 <= q < r.len(),
        forall|q: int| 0 <= q < r.len() ==> 0 <= #[trigger] index_of(r[q].0@, key, w, n) < n
            && r[q].0@ == indexed_key(key, index_of(r[q].0@, key, w, n) as nat, w),
        forall|i: int| 0 <= i < n ==> #[trigger] scanned(r, indexed_key(key, i as nat, w)),
        forall|q1: int, q2: int| 0 <= q1 < q2 < r.len() ==> index_of(r[q1].0@, key, w, n) < index_of(r[q2].0@, key, w, n),
        forall|i: int, j: int| 0 <= i < j < n ==> #[trigger] lex_lt(indexed_key(key, i as nat, w), indexed_key(key, j as nat, w)),
    ensures
        forall|p: int| 0 <= p <= q ==> index_of(r[p].0@, key, w, n) == p,
    decreases q,
{
    if q > 0 {
        lemma_index_prefix(key, w, n, r, q - 1);
        assert(index_of(r[q - 1].0@, key, w, n) == q - 1);
    }
    let x = index_of(r[q].0@, key, w, n);
    assert(x >= q);
    assert(0 <= x < n);
    assert(scanned(r, indexed_key(key, q as nat, w)));
    let q2 = choose|q2: int| 0 <= q2 < r.len() && (#[trigger] r[q2]).0@ == indexed_key(key, q as nat, w);
    assert(0 <= index_of(r[q2].0@, key, w, n) < n);
    lemma_spelled_index(key, w, n, r, q2, q);
    if q2 < q {
        assert(index_of(r[q2].0@, key, w, n) == q2);
    } else if q2 > q {
        assert(index_of(r[q].0@, key, w, n) < index_of(r[q2].0@, key, w, n));
    }
}

} // verus!
