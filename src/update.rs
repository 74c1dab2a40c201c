//! The update planner: from submitted form values to store operations.
use vstd::prelude::*;
use vstd::string::*;
use crate::form::{
    entry_is_empty, find_scalar, type_is_multivalue, value_absent, Expression, Field, FormData,
    FormValue, IfThen, SchemaType,
};
use crate::keys::{digit_count, indexed_key, num_digits, push_padded};

verus! {

/// One mutation of the key-value store.
#[allow(inconsistent_fields)]
pub enum UpdateSettings {
    /// Remove these exact keys.
    Delete { keys: Vec<String> },
    /// Remove every key that starts with `prefix`.
    Clear { prefix: String },
    /// Write these pairs, keys relative to `prefix` when there is one; with
    /// `assert_empty` the store must refuse to overwrite an existing key.
    Insert { prefix: Option<String>, values: Vec<(String, String)>, assert_empty: bool },
}

/// An operation as mathematical values.
#[allow(inconsistent_fields)]
pub enum UpdateView {
    Delete { keys: Seq<Seq<char>> },
    Clear { prefix: Seq<char> },
    Insert { prefix: Option<Seq<char>>, values: Seq<(Seq<char>, Seq<char>)>, assert_empty: bool },
}

pub open spec fn pairs_view(v: Seq<(String, String)>) -> Seq<(Seq<char>, Seq<char>)> {
    v.map_values(|p: (String, String)| (p.0@, p.1@))
}

pub open spec fn strings_view(v: Seq<String>) -> Seq<Seq<char>> {
    v.map_values(|s: String| s@)
}

impl View for UpdateSettings {
    type V = UpdateView;

    open spec fn view(&self) -> UpdateView {
        match self {
            UpdateSettings::Delete { keys } => UpdateView::Delete { keys: strings_view(keys@) },
            UpdateSettings::Clear { prefix } => UpdateView::Clear { prefix: prefix@ },
            UpdateSettings::Insert { prefix, values, assert_empty } => UpdateView::Insert {
                prefix: match prefix {
                    Some(p) => Some(p@),
                    None => None,
                },
                values: pairs_view(values@),
                assert_empty: *assert_empty,
            },
        }
    }
}

pub open spec fn ops_view(v: Seq<UpdateSettings>) -> Seq<UpdateView> {
    v.map_values(|u: UpdateSettings| u@)
}

/// Keys whose first character is an underscore steer the planner and are
/// never stored.
pub open spec fn is_control(key: Seq<char>) -> bool {
    key.len() > 0 && key[0] == '_'
}

/// Relies on str::starts_with: whether `s` begins with `p`.
#[verifier::external_body]
pub(crate) fn starts_with(s: &str, p: &str) -> (r: bool)
    ensures
        r == p@.is_prefix_of(s@),
{
    s.starts_with(p)
}

fn key_is_control(key: &String) -> (r: bool)
    ensures
        r == is_control(key@),
{
    proof {
        reveal_strlit("_");
    }
    let r = starts_with(key.as_str(), "_");
    assert(r == is_control(key@)) by {
        if key@.len() > 0 {
            if key@[0] == '_' {
                assert("_"@ =~= key@.subrange(0, 1));
            } else {
                assert("_"@[0] != key@.subrange(0, 1)[0]);
            }
        }
    }
    r
}

/// The pairs that store the first `n` elements of an array.
pub open spec fn array_pairs(key: Seq<char>, a: Seq<String>, w: nat, n: nat) -> Seq<(Seq<char>, Seq<char>)>
    decreases n,
{
    if n == 0 {
        Seq::empty()
    } else {
        array_pairs(key, a, w, (n - 1) as nat).push((indexed_key(key, (n - 1) as nat, w), a[n - 1]@))
    }
}

/// The pairs that store the first `n` conditions of an expression.
pub open spec fn expr_pairs(key: Seq<char>, c: Seq<IfThen>, w: nat, n: nat) -> Seq<(Seq<char>, Seq<char>)>
    decreases n,
{
    if n == 0 {
        Seq::empty()
    } else {
        let k = indexed_key(key, (n - 1) as nat, w);
        expr_pairs(key, c, w, (n - 1) as nat) + seq![
            (k + ".if"@, c[n - 1].if_@),
            (k + ".then"@, c[n - 1].then_@),
        ]
    }
}

/// The pairs that store one submitted value under `key`.
pub open spec fn entry_pairs(key: Seq<char>, v: FormValue) -> Seq<(Seq<char>, Seq<char>)> {
    if is_control(key) || value_absent(v) {
        Seq::empty()
    } else {
        match v {
            FormValue::Value(s) => seq![(key, s@)],
            FormValue::Array(a) => if a@.len() == 1 {
                seq![(key, a@[0]@)]
            } else {
                array_pairs(key, a@, num_digits((a@.len() - 1) as nat), a@.len())
            },
            FormValue::Expression(e) => {
                let n = e.if_thens@.len();
                if n == 0 {
                    seq![(key, e.else_@)]
                } else {
                    let w = num_digits(n);
                    expr_pairs(key, e.if_thens@, w, n) + seq![
                        (indexed_key(key, n, w) + ".else"@, e.else_@),
                    ]
                }
            },
        }
    }
}

/// The pairs that store all submitted values, in their order.
pub open spec fn flatten(vals: Seq<(String, FormValue)>) -> Seq<(Seq<char>, Seq<char>)>
    decreases vals.len(),
{
    if vals.len() == 0 {
        Seq::empty()
    } else {
        flatten(vals.drop_last()) + entry_pairs(vals.last().0@, vals.last().1)
    }
}

/// The insert of all stored pairs, if there are any.
pub open spec fn insert_ops(prefix: Option<Seq<char>>, vals: Seq<(String, FormValue)>, assert_empty: bool) -> Seq<UpdateView> {
    let kv = flatten(vals);
    if kv.len() == 0 {
        Seq::empty()
    } else {
        seq![UpdateView::Insert { prefix, values: kv, assert_empty }]
    }
}

/// The clears of the multivalue fields of a list, in field order.
pub open spec fn list_clears(fields: Seq<Field>) -> Seq<UpdateView>
    decreases fields.len(),
{
    if fields.len() == 0 {
        Seq::empty()
    } else {
        let f = fields.last();
        list_clears(fields.drop_last()) + if type_is_multivalue(f.typ_) {
            seq![UpdateView::Clear { prefix: f.id@ + "."@ }]
        } else {
            Seq::empty()
        }
    }
}

/// The fields of a list whose old keys go: multivalue ones and empty ones.
pub open spec fn list_deletes(fields: Seq<Field>, vals: Seq<(String, FormValue)>) -> Seq<Seq<char>>
    decreases fields.len(),
{
    if fields.len() == 0 {
        Seq::empty()
    } else {
        let f = fields.last();
        list_deletes(fields.drop_last(), vals) + if type_is_multivalue(f.typ_) || entry_is_empty(vals, f.id@) {
            seq![f.id@]
        } else {
            Seq::empty()
        }
    }
}

/// What a list update removes before anything is written.
pub open spec fn list_removals(fields: Seq<Field>, vals: Seq<(String, FormValue)>) -> Seq<UpdateView> {
    let keys = list_deletes(fields, vals);
    list_clears(fields) + if keys.len() == 0 {
        Seq::empty()
    } else {
        seq![UpdateView::Delete { keys }]
    }
}

/// The identifier of a record or entry.
pub open spec fn form_id(d: FormData) -> Seq<char> {
    find_scalar(d.values@, "_id"@)->Some_0
}

/// The planner's precondition: records and entries carry their identifier.
pub open spec fn has_identifier(d: FormData) -> bool {
    match d.schema.typ {
        SchemaType::List => true,
        _ => find_scalar(d.values@, "_id"@) is Some,
    }
}

/// The operations that bring the store in line with the submitted form.
pub open spec fn plan(d: FormData) -> Seq<UpdateView> {
    match d.schema.typ {
        SchemaType::Record { prefix } => {
            let base = prefix@ + "."@ + form_id(d);
            let head = if d.is_update {
                seq![UpdateView::Clear { prefix: base + "."@ }]
            } else {
                Seq::empty()
            };
            head + insert_ops(Some(base), d.values@, !d.is_update)
        },
        SchemaType::Entry { prefix } => {
            let value = match find_scalar(d.values@, "_value"@) {
                Some(v) => v,
                None => Seq::empty(),
            };
            seq![UpdateView::Insert {
                prefix: None,
                values: seq![(prefix@ + "."@ + form_id(d), value)],
                assert_empty: !d.is_update,
            }]
        },
        SchemaType::List => {
            let head = if d.is_update {
                list_removals(d.schema.fields@, d.values@)
            } else {
                Seq::empty()
            };
            head + insert_ops(None, d.values@, false)
        },
    }
}

/// `key` followed by a dot and `idx` padded to width `w`.
fn index_key(key: &String, idx: usize, w: usize) -> (r: String)
    ensures
        r@ == indexed_key(key@, idx as nat, w as nat),
{
    proof {
        reveal_strlit(".");
    }
    let mut s = key.clone();
    s.append(".");
    push_padded(&mut s, idx, w);
    s
}

fn push_array(kv: &mut Vec<(String, String)>, key: &String, a: &Vec<String>)
    requires
        a@.len() > 1,
    ensures
        pairs_view(final(kv)@) == pairs_view(old(kv)@) + array_pairs(key@, a@, num_digits((a@.len() - 1) as nat), a@.len()),
{
    let ghost start = kv@;
    let w = digit_count(a.len() - 1);
    let mut i: usize = 0;
    while i < a.len()
        invariant
            i <= a@.len(),
            w == num_digits((a@.len() - 1) as nat),
            pairs_view(kv@) == pairs_view(start) + array_pairs(key@, a@, w as nat, i as nat),
        decreases a@.len() - i,
    {
        let k = index_key(key, i, w);
        let ghost before = kv@;
        kv.push((k, a[i].clone()));
        assert(pairs_view(kv@) =~= pairs_view(before).push((indexed_key(key@, i as nat, w as nat), a@[i as int]@)));
        assert(pairs_view(kv@) =~= pairs_view(start) + array_pairs(key@, a@, w as nat, (i + 1) as nat));
        i = i + 1;
    }
}

fn push_expression(kv: &mut Vec<(String, String)>, key: &String, e: &Expression)
    requires
        e.if_thens@.len() > 0,
    ensures
        ({
            let n = e.if_thens@.len();
            let w = num_digits(n);
            pairs_view(final(kv)@) == pairs_view(old(kv)@) + expr_pairs(key@, e.if_thens@, w, n)
                + seq![(indexed_key(key@, n, w) + ".else"@, e.else_@)]
        }),
{
    let ghost start = kv@;
    let n = e.if_thens.len();
    let w = digit_count(n);
    let mut i: usize = 0;
    while i < n
        invariant
            i <= n,
            n == e.if_thens@.len(),
            w == num_digits(n as nat),
            pairs_view(kv@) == pairs_view(start) + expr_pairs(key@, e.if_thens@, w as nat, i as nat),
        decreases n - i,
    {
        let k = index_key(key, i, w);
        let mut kif = k.clone();
        kif.append(".if");
        let mut kthen = k;
        kthen.append(".then");
        let ghost before = kv@;
        let ghost kk = indexed_key(key@, i as nat, w as nat);
        kv.push((kif, e.if_thens[i].if_.clone()));
        kv.push((kthen, e.if_thens[i].then_.clone()));
        assert(pairs_view(kv@) =~= pairs_view(before) + seq![
            (kk + ".if"@, e.if_thens@[i as int].if_@),
            (kk + ".then"@, e.if_thens@[i as int].then_@),
        ]);
        assert(pairs_view(kv@) =~= pairs_view(start) + expr_pairs(key@, e.if_thens@, w as nat, (i + 1) as nat));
        i = i + 1;
    }
    let mut kelse = index_key(key, n, w);
    kelse.append(".else");
    kv.push((kelse, e.else_.clone()));
    assert(pairs_view(kv@) =~= pairs_view(start) + expr_pairs(key@, e.if_thens@, w as nat, n as nat)
        + seq![(indexed_key(key@, n as nat, w as nat) + ".else"@, e.else_@)]);
}

fn push_entry(kv: &mut Vec<(String, String)>, key: &String, v: &FormValue)
    ensures
        pairs_view(final(kv)@) == pairs_view(old(kv)@) + entry_pairs(key@, *v),
{
    let ghost start = kv@;
    if key_is_control(key) || v.is_absent() {
        assert(pairs_view(kv@) =~= pairs_view(start) + entry_pairs(key@, *v));
        return;
    }
    match v {
        FormValue::Value(s) => {
            kv.push((key.clone(), s.clone()));
        },
        FormValue::Array(a) => {
            if a.len() == 1 {
                kv.push((key.clone(), a[0].clone()));
            } else {
                push_array(kv, key, a);
            }
        },
        FormValue::Expression(e) => {
            if e.if_thens.len() == 0 {
                kv.push((key.clone(), e.else_.clone()));
            } else {
                push_expression(kv, key, e);
            }
        },
    }
    assert(pairs_view(kv@) =~= pairs_view(start) + entry_pairs(key@, *v));
}

/// The pairs that store all submitted values.
fn flatten_values(vals: &Vec<(String, FormValue)>) -> (r: Vec<(String, String)>)
    ensures
        pairs_view(r@) == flatten(vals@),
{
    let mut kv: Vec<(String, String)> = Vec::new();
    let mut i: usize = 0;
    while i < vals.len()
        invariant
            i <= vals@.len(),
            pairs_view(kv@) == flatten(vals@.subrange(0, i as int)),
        decreases vals@.len() - i,
    {
        push_entry(&mut kv, &vals[i].0, &vals[i].1);
        assert(vals@.subrange(0, i + 1).drop_last() =~= vals@.subrange(0, i as int));
        i = i + 1;
    }
    assert(vals@.subrange(0, vals@.len() as int) =~= vals@);
    kv
}

impl FormData {
    /// Plans the store operations that apply this form: for a record, a
    /// clear of its keys on update and one insert; for an entry, one insert
    /// of its value; for a list, on update, the clears and deletes of what
    /// is replaced or emptied, then one insert. Inserts carry
    /// `assert_empty` exactly when a record or entry is created.
    pub fn build_update(&self) -> (r: Vec<UpdateSettings>)
        requires
            has_identifier(*self),
        ensures
            ops_view(r@) == plan(*self),
    {
        proof {
            reveal_strlit(".");
        }
        let mut updates: Vec<UpdateSettings> = Vec::new();
        let mut insert_prefix: Option<String> = None;
        let mut assert_empty = false;
        match &self.schema.typ {
            SchemaType::Record { prefix } => {
                let id = self.value_as_str("_id").unwrap();
                let mut base = prefix.clone();
                base.append(".");
                base.append(id.as_str());
                if self.is_update {
                    let mut clear = base.clone();
                    clear.append(".");
                    updates.push(UpdateSettings::Clear { prefix: clear });
                } else {
                    assert_empty = true;
                }
                insert_prefix = Some(base);
            },
            SchemaType::Entry { prefix } => {
                let id = self.value_as_str("_id").unwrap();
                let mut key = prefix.clone();
                key.append(".");
                key.append(id.as_str());
                let value = match self.value_as_str("_value") {
                    Some(v) => v.clone(),
                    None => String::new(),
                };
                let mut values: Vec<(String, String)> = Vec::new();
                values.push((key, value));
                assert(key@ == prefix@ + "."@ + form_id(*self));
                assert(pairs_view(values@) =~= seq![(key@, value@)]);
                updates.push(UpdateSettings::Insert { prefix: None, values, assert_empty: !self.is_update });
                assert(ops_view(updates@) =~= plan(*self));
                return updates;
            },
            SchemaType::List => {
                if self.is_update {
                    list_removals_exec(&mut updates, &self.schema.fields, self);
                }
            },
        }
        let key_values = flatten_values(&self.values);
        if key_values.len() > 0 {
            updates.push(UpdateSettings::Insert { prefix: insert_prefix, values: key_values, assert_empty });
        }
        assert(ops_view(updates@) =~= plan(*self));
        updates
    }
}

fn list_removals_exec(updates: &mut Vec<UpdateSettings>, fields: &Vec<Field>, d: &FormData)
    requires
        old(updates)@.len() == 0,
    ensures
        ops_view(final(updates)@) == list_removals(fields@, d.values@),
{
    let mut delete_keys: Vec<String> = Vec::new();
    let mut i: usize = 0;
    assert(ops_view(updates@) =~= Seq::<UpdateView>::empty());
    while i < fields.len()
        invariant
            i <= fields@.len(),
            ops_view(updates@) == list_clears(fields@.subrange(0, i as int)),
            strings_view(delete_keys@) == list_deletes(fields@.subrange(0, i as int), d.values@),
        decreases fields@.len() - i,
    {
        let f = &fields[i];
        let ghost sub = fields@.subrange(0, i + 1);
        assert(sub.drop_last() =~= fields@.subrange(0, i as int));
        let ghost ops0 = ops_view(updates@);
        let ghost keys0 = strings_view(delete_keys@);
        if f.is_multivalue() {
            let mut p = f.id.clone();
            proof {
                reveal_strlit(".");
            }
            p.append(".");
            updates.push(UpdateSettings::Clear { prefix: p });
            delete_keys.push(f.id.clone());
        } else if d.value_is_empty(f.id.as_str()) {
            delete_keys.push(f.id.clone());
        }
        assert(ops_view(updates@) =~= list_clears(sub));
        assert(strings_view(delete_keys@) =~= list_deletes(sub, d.values@));
        i = i + 1;
    }
    assert(fields@.subrange(0, fields@.len() as int) =~= fields@);
    if delete_keys.len() > 0 {
        updates.push(UpdateSettings::Delete { keys: delete_keys });
    }
    assert(ops_view(updates@) =~= list_removals(fields@, d.values@));
}

} // verus!
