use crate::field::embed_signed;
use crate::field::FieldElement;
use crate::host::HostValue;
use crate::host::Number;
use crate::lex::lemma_str_lt_asymmetric;
use crate::lex::lemma_str_lt_connex;
use crate::lex::lemma_str_lt_transitive;
use crate::lex::str_lt;
use crate::lex::str_lt_exec;
use crate::value::entries_sorted;
use crate::value::keys_sorted;
use crate::value::lemma_model_entries_pointwise;
use crate::value::lemma_model_seq_pointwise;
use crate::value::model_entries;
use crate::value::model_seq;
use crate::value::GValue;
use crate::value::Value;
use vstd::prelude::*;

verus! {

/// The field value a host number embeds to: signed integers by the
/// additive-inverse convention, unsigned and truncated ones directly.
pub open spec fn scalar_of_number(n: Number) -> nat {
    match n {
        Number::Signed(x) => embed_signed(x as int) as nat,
        Number::Unsigned(x) => x as nat,
        Number::Truncated(x) => x as nat,
    }
}

/// Insertion into a key-sorted association sequence: the new pair lands at
/// its ordered position, and on an equal key the new value replaces the
/// old one.
pub open spec fn insert_sorted(
    key: Seq<char>,
    v: GValue,
    s: Seq<(Seq<char>, GValue)>,
) -> Seq<(Seq<char>, GValue)>
    decreases s.len(),
{
    if s.len() == 0 {
        seq![(key, v)]
    } else if str_lt(s[0].0, key) {
        seq![s[0]] + insert_sorted(key, v, s.drop_first())
    } else if s[0].0 == key {
        s.update(0, (key, v))
    } else {
        seq![(key, v)] + s
    }
}

/// What conversion makes of a generic host tree: the defining map from
/// host shapes to circuit values.
pub open spec fn convert_model(t: HostValue) -> GValue
    decreases t,
{
    match t {
        HostValue::Null => GValue::Scalar(0),
        HostValue::Bool(b) => GValue::Scalar(if b { 1nat } else { 0nat }),
        HostValue::Num(n) => GValue::Scalar(scalar_of_number(n)),
        HostValue::Text(s) => GValue::Text(s@),
        HostValue::Array(ts) => GValue::Sequence(convert_model_seq(ts@)),
        HostValue::Object(os) => GValue::Record(convert_model_entries(os@)),
    }
}

/// The conversions of the elements of an array, in source order.
pub open spec fn convert_model_seq(ts: Seq<HostValue>) -> Seq<GValue>
    decreases ts,
{
    if ts.len() == 0 {
        Seq::empty()
    } else {
        seq![convert_model(ts[0])] + convert_model_seq(ts.drop_first())
    }
}

/// The record an object converts to: each entry converted in source order
/// and inserted at its lexicographic position, a later entry overriding an
/// earlier one with the same key.
pub open spec fn convert_model_entries(os: Seq<(String, HostValue)>) -> Seq<(Seq<char>, GValue)>
    decreases os,
{
    if os.len() == 0 {
        Seq::empty()
    } else {
        insert_sorted(
            os.last().0@,
            convert_model(os.last().1),
            convert_model_entries(os.drop_last()),
        )
    }
}

/// `convert_model_seq` maps the array pointwise.
pub proof fn lemma_convert_model_seq_pointwise(ts: Seq<HostValue>)
    ensures
        convert_model_seq(ts).len() == ts.len(),
        forall|i: int|
            0 <= i < ts.len() ==> convert_model_seq(ts)[i] == convert_model(#[trigger] ts[i]),
    decreases ts,
{
    if ts.len() > 0 {
        lemma_convert_model_seq_pointwise(ts.drop_first());
        assert forall|i: int|
            0 <= i < ts.len() implies convert_model_seq(ts)[i] == convert_model(
            #[trigger] ts[i],
        ) by {
            if i > 0 {
                assert(convert_model_seq(ts)[i] == convert_model_seq(ts.drop_first())[i - 1]);
                assert(ts.drop_first()[i - 1] == ts[i]);
            }
        }
    }
}

/// Where the scan of a key-sorted sequence stops, `insert_sorted` either
/// replaces the entry with the equal key or splices the new pair in.
proof fn lemma_insert_sorted_split(key: Seq<char>, v: GValue, s: Seq<(Seq<char>, GValue)>, idx: int)
    requires
        0 <= idx <= s.len(),
        forall|j: int| 0 <= j < idx ==> str_lt((#[trigger] s[j]).0, key),
        idx < s.len() ==> !str_lt(s[idx].0, key),
    ensures
        idx < s.len() && s[idx].0 == key ==> insert_sorted(key, v, s) == s.update(idx, (key, v)),
        !(idx < s.len() && s[idx].0 == key) ==> insert_sorted(key, v, s) == s.subrange(0, idx)
            + seq![(key, v)] + s.subrange(idx, s.len() as int),
    decreases idx,
{
    if idx == 0 {
        if s.len() == 0 {
            assert(insert_sorted(key, v, s) =~= s.subrange(0, 0) + seq![(key, v)] + s.subrange(
                0,
                0,
            ));
        } else if s[0].0 == key {
        } else {
            assert(insert_sorted(key, v, s) =~= s.subrange(0, 0) + seq![(key, v)] + s.subrange(
                0,
                s.len() as int,
            ));
        }
    } else {
        let d = s.drop_first();
        assert(str_lt(s[0].0, key));
        assert forall|j: int| 0 <= j < idx - 1 implies str_lt((#[trigger] d[j]).0, key) by {
            assert(d[j] == s[j + 1]);
        }
        assert(idx - 1 < d.len() ==> d[idx - 1] == s[idx]);
        lemma_insert_sorted_split(key, v, d, idx - 1);
        assert(insert_sorted(key, v, s) == seq![s[0]] + insert_sorted(key, v, d));
        if idx < s.len() && s[idx].0 == key {
            assert(seq![s[0]] + d.update(idx - 1, (key, v)) =~= s.update(idx, (key, v))) by {
                assert forall|i: int| 0 <= i < s.len() implies (seq![s[0]] + d.update(
                    idx - 1,
                    (key, v),
                ))[i] == s.update(idx, (key, v))[i] by {
                    if i > 0 {
                        assert(d[i - 1] == s[i]);
                    }
                }
            }
        } else {
            let lhs = seq![s[0]] + (d.subrange(0, idx - 1) + seq![(key, v)] + d.subrange(
                idx - 1,
                d.len() as int,
            ));
            let rhs = s.subrange(0, idx) + seq![(key, v)] + s.subrange(idx, s.len() as int);
            assert(lhs =~= rhs) by {
                assert forall|i: int| 0 <= i < lhs.len() implies lhs[i] == rhs[i] by {
                    if 0 < i < idx {
                        assert(d[i - 1] == s[i]);
                    } else if i > idx {
                        assert(d[i - 2] == s[i - 1]);
                    }
                }
            }
        }
    }
}

/// Inserts a converted entry into a record kept sorted by key, replacing
/// the value held under an equal key.
fn record_insert(entries: &mut Vec<(String, Value)>, key: String, v: Value)
    requires
        entries_sorted(old(entries)@),
        forall|j: int| 0 <= j < old(entries)@.len() ==> (#[trigger] old(entries)@[j]).1.wf(),
        v.wf(),
    ensures
        entries_sorted(final(entries)@),
        forall|j: int| 0 <= j < final(entries)@.len() ==> (#[trigger] final(entries)@[j]).1.wf(),
        model_entries(final(entries)@) == insert_sorted(key@, v.model(), model_entries(old(entries)@)),
{
    proof {
        lemma_model_entries_pointwise(old(entries)@);
    }
    let ghost s0 = model_entries(old(entries)@);
    let mut idx: usize = 0;
    loop
        invariant
            idx <= entries@.len(),
            entries@ == old(entries)@,
            forall|j: int| 0 <= j < idx ==> str_lt((#[trigger] entries@[j]).0@, key@),
        ensures
            idx <= entries@.len(),
            entries@ == old(entries)@,
            forall|j: int| 0 <= j < idx ==> str_lt((#[trigger] entries@[j]).0@, key@),
            idx < entries@.len() ==> !str_lt(entries@[idx as int].0@, key@),
        decreases entries@.len() - idx,
    {
        if idx == entries.len() {
            break;
        }
        let e = &entries[idx];
        if str_lt_exec(e.0.as_str(), key.as_str()) {
            idx = idx + 1;
        } else {
            break;
        }
    }
    let replace: bool = if idx < entries.len() {
        let e = &entries[idx];
        !str_lt_exec(key.as_str(), e.0.as_str())
    } else {
        false
    };
    proof {
        assert forall|j: int| 0 <= j < idx implies str_lt((#[trigger] s0[j]).0, key@) by {
            assert(s0[j].0 == entries@[j].0@);
        }
        if idx < entries@.len() {
            assert(s0[idx as int].0 == entries@[idx as int].0@);
        }
        lemma_insert_sorted_split(key@, v.model(), s0, idx as int);
    }
    if replace {
        proof {
            lemma_str_lt_connex(entries@[idx as int].0@, key@);
            assert(s0[idx as int].0 == key@);
        }
        entries[idx] = (key, v);
        proof {
            lemma_model_entries_pointwise(entries@);
            assert(model_entries(entries@) =~= s0.update(idx as int, (key@, v.model()))) by {
                assert forall|i: int| 0 <= i < entries@.len() implies model_entries(entries@)[i]
                    == s0.update(idx as int, (key@, v.model()))[i] by {
                    if i != idx {
                        assert(entries@[i] == old(entries)@[i]);
                        assert(s0[i] == (old(entries)@[i].0@, old(entries)@[i].1.model()));
                    }
                }
            }
        }
    } else {
        proof {
            if idx < entries@.len() {
                // the scan stopped strictly above the new key
                if entries@[idx as int].0@ == key@ {
                    lemma_str_lt_asymmetric(key@, key@);
                }
            }
        }
        entries.insert(idx, (key, v));
        proof {
            lemma_model_entries_pointwise(entries@);
            assert(model_entries(entries@) =~= s0.subrange(0, idx as int) + seq![
                (key@, v.model()),
            ] + s0.subrange(idx as int, s0.len() as int)) by {
                assert forall|i: int| 0 <= i < entries@.len() implies model_entries(entries@)[i]
                    == (s0.subrange(0, idx as int) + seq![(key@, v.model())] + s0.subrange(
                    idx as int,
                    s0.len() as int,
                ))[i] by {
                    if i < idx {
                        assert(entries@[i] == old(entries)@[i]);
                    } else if i > idx {
                        assert(entries@[i] == old(entries)@[i - 1]);
                    }
                }
            }
            assert forall|i: int, j: int|
                0 <= i < j < entries@.len() implies str_lt(
                (#[trigger] entries@[i]).0@,
                (#[trigger] entries@[j]).0@,
            ) by {
                if j < idx {
                } else if i < idx && j == idx {
                    assert(str_lt(entries@[i].0@, key@));
                } else if i < idx && j > idx {
                    assert(entries@[j] == old(entries)@[j - 1]);
                    if j - 1 == idx {
                        assert(str_lt(entries@[i].0@, key@));
                        assert(str_lt(key@, old(entries)@[idx as int].0@));
                        lemma_str_lt_transitive(entries@[i].0@, key@, entries@[j].0@);
                    }
                } else if i == idx && j > idx {
                    assert(entries@[j] == old(entries)@[j - 1]);
                    assert(str_lt(key@, old(entries)@[idx as int].0@));
                    if j - 1 > idx {
                        lemma_str_lt_transitive(
                            key@,
                            old(entries)@[idx as int].0@,
                            old(entries)@[j - 1].0@,
                        );
                    }
                } else {
                    assert(entries@[i] == old(entries)@[i - 1]);
                    assert(entries@[j] == old(entries)@[j - 1]);
                }
            }
        }
    }
}

/// Converts a generic host tree into the typed circuit value it denotes:
/// null to the zero scalar, booleans to one and zero, numbers by the field
/// embedding, strings to text unchanged, arrays elementwise in order, and
/// objects to records re-sorted by key. Conversion is total and pure.
#[verifier::loop_isolation(false)]
pub fn convert(t: &HostValue) -> (v: Value)
    ensures
        v.wf(),
        v.model() == convert_model(*t),
    decreases *t,
{
    match t {
        HostValue::Null => Value::Scalar(FieldElement::from_u64(0)),
        HostValue::Bool(b) => Value::Scalar(FieldElement::from_bool(*b)),
        HostValue::Num(n) => Value::Scalar(
            match n {
                Number::Signed(x) => FieldElement::from_i64(*x),
                Number::Unsigned(x) => FieldElement::from_u64(*x),
                Number::Truncated(x) => FieldElement::from_u64(*x),
            },
        ),
        HostValue::Text(s) => Value::Text(s.clone()),
        HostValue::Array(ts) => {
            let mut out: Vec<Value> = Vec::new();
            let mut i: usize = 0;
            while i < ts.len()
                invariant
                    i <= ts@.len(),
                    out@.len() == i,
                    forall|j: int| 0 <= j < i ==> (#[trigger] out@[j]).wf(),
                    forall|j: int|
                        0 <= j < i ==> (#[trigger] out@[j]).model() == convert_model(ts@[j]),
                decreases ts@.len() - i,
            {
                proof {
                    assert(*ts == (*t)->Array_0);
                    assert(decreases_to!(*t => (*t)->Array_0));
                    assert(decreases_to!(*ts => ts@));
                    assert(decreases_to!(ts@ => ts@[i as int]));
                }
                let cv = convert(&ts[i]);
                out.push(cv);
                i = i + 1;
            }
            proof {
                lemma_model_seq_pointwise(out@);
                lemma_convert_model_seq_pointwise(ts@);
                assert(model_seq(out@) =~= convert_model_seq(ts@)) by {
                    assert forall|j: int| 0 <= j < ts@.len() implies model_seq(out@)[j]
                        == convert_model_seq(ts@)[j] by {
                        assert(model_seq(out@)[j] == out@[j].model());
                        assert(convert_model_seq(ts@)[j] == convert_model(ts@[j]));
                    }
                }
            }
            Value::Sequence(out)
        },
        HostValue::Object(os) => {
            let mut out: Vec<(String, Value)> = Vec::new();
            let mut i: usize = 0;
            proof {
                assert(os@.subrange(0, 0) =~= Seq::empty());
            }
            while i < os.len()
                invariant
                    i <= os@.len(),
                    entries_sorted(out@),
                    forall|j: int| 0 <= j < out@.len() ==> (#[trigger] out@[j]).1.wf(),
                    model_entries(out@) == convert_model_entries(os@.subrange(0, i as int)),
                decreases os@.len() - i,
            {
                let e = &os[i];
                proof {
                    assert(*os == (*t)->Object_0);
                    assert(decreases_to!(*t => (*t)->Object_0));
                    assert(decreases_to!(*os => os@));
                    assert(decreases_to!(os@ => os@[i as int]));
                    assert(decreases_to!(os@[i as int] => os@[i as int].1));
                }
                let cv = convert(&e.1);
                let k = e.0.clone();
                record_insert(&mut out, k, cv);
                proof {
                    assert(os@.subrange(0, i + 1).drop_last() =~= os@.subrange(0, i as int));
                    assert(os@.subrange(0, i + 1).last() == os@[i as int]);
                }
                i = i + 1;
            }
            proof {
                assert(os@.subrange(0, os@.len() as int) =~= os@);
            }
            Value::Record(out)
        },
    }
}

/// Every entry of an insertion's result is the inserted pair or one of the
/// old entries.
proof fn lemma_insert_sorted_elems(key: Seq<char>, v: GValue, s: Seq<(Seq<char>, GValue)>)
    ensures
        forall|i: int|
            0 <= i < insert_sorted(key, v, s).len() ==> (#[trigger] insert_sorted(key, v, s)[i])
                == (key, v) || s.contains(insert_sorted(key, v, s)[i]),
    decreases s.len(),
{
    let r = insert_sorted(key, v, s);
    if s.len() == 0 {
    } else if str_lt(s[0].0, key) {
        let d = s.drop_first();
        let rd = insert_sorted(key, v, d);
        lemma_insert_sorted_elems(key, v, d);
        assert forall|i: int| 0 <= i < r.len() implies (#[trigger] r[i]) == (key, v) || s.contains(
            r[i],
        ) by {
            if i == 0 {
                assert(r[0] == s[0]);
                assert(s.contains(s[0]));
            } else {
                assert(r[i] == rd[i - 1]);
                if rd[i - 1] != (key, v) {
                    let k = choose|k: int| 0 <= k < d.len() && d[k] == rd[i - 1];
                    assert(s[k + 1] == d[k]);
                    assert(s.contains(rd[i - 1]));
                }
            }
        }
    } else if s[0].0 == key {
        assert forall|i: int| 0 <= i < r.len() implies (#[trigger] r[i]) == (key, v) || s.contains(
            r[i],
        ) by {
            if i != 0 {
                assert(r[i] == s[i]);
                assert(s.contains(s[i]));
            }
        }
    } else {
        assert forall|i: int| 0 <= i < r.len() implies (#[trigger] r[i]) == (key, v) || s.contains(
            r[i],
        ) by {
            if i > 0 {
                assert(r[i] == s[i - 1]);
                assert(s.contains(s[i - 1]));
            }
        }
    }
}

/// Insertion keeps an association sequence sorted by key.
proof fn lemma_insert_sorted_sorted(key: Seq<char>, v: GValue, s: Seq<(Seq<char>, GValue)>)
    requires
        keys_sorted(s),
    ensures
        keys_sorted(insert_sorted(key, v, s)),
    decreases s.len(),
{
    let r = insert_sorted(key, v, s);
    if s.len() == 0 {
    } else if str_lt(s[0].0, key) {
        let d = s.drop_first();
        let rd = insert_sorted(key, v, d);
        assert(keys_sorted(d)) by {
            assert forall|i: int, j: int| 0 <= i < j < d.len() implies str_lt(
                (#[trigger] d[i]).0,
                (#[trigger] d[j]).0,
            ) by {
                assert(d[i] == s[i + 1]);
                assert(d[j] == s[j + 1]);
            }
        }
        lemma_insert_sorted_sorted(key, v, d);
        lemma_insert_sorted_elems(key, v, d);
        assert forall|i: int, j: int| 0 <= i < j < r.len() implies str_lt(
            (#[trigger] r[i]).0,
            (#[trigger] r[j]).0,
        ) by {
            if i == 0 {
                assert(r[j] == rd[j - 1]);
                if rd[j - 1] == (key, v) {
                } else {
                    let k = choose|k: int| 0 <= k < d.len() && d[k] == rd[j - 1];
                    assert(d[k] == s[k + 1]);
                    assert(str_lt(s[0].0, s[k + 1].0));
                }
            } else {
                assert(r[i] == rd[i - 1]);
                assert(r[j] == rd[j - 1]);
            }
        }
    } else if s[0].0 == key {
        assert forall|i: int, j: int| 0 <= i < j < r.len() implies str_lt(
            (#[trigger] r[i]).0,
            (#[trigger] r[j]).0,
        ) by {
            assert(r[i].0 == s[i].0);
            assert(r[j].0 == s[j].0);
        }
    } else {
        assert(str_lt(key, s[0].0)) by {
            if !str_lt(key, s[0].0) {
                lemma_str_lt_connex(key, s[0].0);
            }
        }
        assert forall|i: int, j: int| 0 <= i < j < r.len() implies str_lt(
            (#[trigger] r[i]).0,
            (#[trigger] r[j]).0,
        ) by {
            if i == 0 {
                assert(r[j] == s[j - 1]);
                if j > 1 {
                    assert(str_lt(s[0].0, s[j - 1].0));
                    lemma_str_lt_transitive(key, s[0].0, s[j - 1].0);
                }
            } else {
                assert(r[i] == s[i - 1]);
                assert(r[j] == s[j - 1]);
            }
        }
    }
}

/// The record an object converts to is sorted by key, whatever order the
/// source entries came in.
proof fn lemma_convert_model_entries_sorted(os: Seq<(String, HostValue)>)
    ensures
        keys_sorted(convert_model_entries(os)),
    decreases os,
{
    if os.len() > 0 {
        lemma_convert_model_entries_sorted(os.drop_last());
        lemma_insert_sorted_sorted(
            os.last().0@,
            convert_model(os.last().1),
            convert_model_entries(os.drop_last()),
        );
    }
}

/// The set of keys an association sequence holds.
pub open spec fn key_set(es: Seq<(Seq<char>, GValue)>) -> Set<Seq<char>> {
    Set::new(|k: Seq<char>| exists|i: int| 0 <= i < es.len() && (#[trigger] es[i]).0 == k)
}

/// The set of keys the entries of a host object hold.
pub open spec fn host_key_set(os: Seq<(String, HostValue)>) -> Set<Seq<char>> {
    Set::new(|k: Seq<char>| exists|i: int| 0 <= i < os.len() && (#[trigger] os[i]).0@ == k)
}

/// Insertion adds exactly the inserted key to the key set.
proof fn lemma_insert_sorted_keys(key: Seq<char>, v: GValue, s: Seq<(Seq<char>, GValue)>)
    ensures
        key_set(insert_sorted(key, v, s)) == key_set(s).insert(key),
    decreases s.len(),
{
    let r = insert_sorted(key, v, s);
    assert forall|k: Seq<char>| #[trigger]
        key_set(r).contains(k) implies key_set(s).insert(key).contains(k) by {
        let i = choose|i: int| 0 <= i < r.len() && r[i].0 == k;
        if s.len() == 0 {
        } else if str_lt(s[0].0, key) {
            if i == 0 {
                assert(s[0].0 == k);
            } else {
                lemma_insert_sorted_keys(key, v, s.drop_first());
                assert(insert_sorted(key, v, s.drop_first())[i - 1].0 == k);
                assert(key_set(insert_sorted(key, v, s.drop_first())).contains(k));
                if k != key {
                    let j = choose|j: int|
                        0 <= j < s.drop_first().len() && s.drop_first()[j].0 == k;
                    assert(s[j + 1].0 == k);
                }
            }
        } else if s[0].0 == key {
            if i != 0 {
                assert(s[i].0 == k);
            }
        } else {
            if i != 0 {
                assert(s[i - 1].0 == k);
            }
        }
    }
    assert forall|k: Seq<char>| #[trigger]
        key_set(s).insert(key).contains(k) implies key_set(r).contains(k) by {
        if k == key {
            if s.len() == 0 {
                assert(r[0].0 == key);
            } else if str_lt(s[0].0, key) {
                lemma_insert_sorted_keys(key, v, s.drop_first());
                let rd = insert_sorted(key, v, s.drop_first());
                assert(key_set(rd).contains(key));
                let j = choose|j: int| 0 <= j < rd.len() && (#[trigger] rd[j]).0 == key;
                assert(r[j + 1] == rd[j]);
                assert(r[j + 1].0 == key);
            } else if s[0].0 == key {
                assert(r[0].0 == key);
            } else {
                assert(r[0].0 == key);
            }
        } else {
            let i = choose|i: int| 0 <= i < s.len() && s[i].0 == k;
            if str_lt(s[0].0, key) {
                if i == 0 {
                    assert(r[0].0 == k);
                } else {
                    lemma_insert_sorted_keys(key, v, s.drop_first());
                    let rd = insert_sorted(key, v, s.drop_first());
                    assert(s.drop_first()[i - 1].0 == k);
                    assert(key_set(s.drop_first()).contains(k));
                    assert(key_set(rd).contains(k));
                    let j = choose|j: int| 0 <= j < rd.len() && (#[trigger] rd[j]).0 == k;
                    assert(r[j + 1] == rd[j]);
                    assert(r[j + 1].0 == k);
                }
            } else if s[0].0 == key {
                assert(i != 0);
                assert(r[i].0 == k);
            } else {
                assert(r[i + 1].0 == k);
            }
        }
    }
    assert(key_set(r) =~= key_set(s).insert(key));
}

/// The record an object converts to holds exactly the keys of the
/// object's entries.
proof fn lemma_convert_model_entries_keys(os: Seq<(String, HostValue)>)
    ensures
        key_set(convert_model_entries(os)) == host_key_set(os),
    decreases os,
{
    if os.len() == 0 {
        assert(key_set(convert_model_entries(os)) =~= host_key_set(os));
    } else {
        let d = os.drop_last();
        lemma_convert_model_entries_keys(d);
        lemma_insert_sorted_keys(os.last().0@, convert_model(os.last().1), convert_model_entries(d));
        assert(host_key_set(d).insert(os.last().0@) =~= host_key_set(os)) by {
            assert forall|k: Seq<char>| #[trigger]
                host_key_set(os).contains(k) implies host_key_set(d).insert(
                os.last().0@,
            ).contains(k) by {
                let i = choose|i: int| 0 <= i < os.len() && os[i].0@ == k;
                if i < os.len() - 1 {
                    assert(d[i].0@ == k);
                }
            }
            assert forall|k: Seq<char>| #[trigger]
                host_key_set(d).insert(os.last().0@).contains(k) implies host_key_set(
                os,
            ).contains(k) by {
                if k == os.last().0@ {
                    assert(os[os.len() - 1].0@ == k);
                } else {
                    let i = choose|i: int| 0 <= i < d.len() && d[i].0@ == k;
                    assert(os[i].0@ == k);
                }
            }
        }
    }
}

/// An object converts to a record holding exactly the keys of the
/// object's entries.
pub proof fn lemma_convert_object_keys(t: HostValue)
    requires
        t is Object,
    ensures
        convert_model(t) matches GValue::Record(es) && key_set(es) == host_key_set(t->Object_0@),
{
    lemma_convert_model_entries_keys(t->Object_0@);
}

/// The value an association sequence holds under a key, if any.
pub open spec fn lookup(es: Seq<(Seq<char>, GValue)>, k: Seq<char>) -> Option<GValue>
    decreases es.len(),
{
    if es.len() == 0 {
        None
    } else if es[0].0 == k {
        Some(es[0].1)
    } else {
        lookup(es.drop_first(), k)
    }
}

/// The value a host object holds under a key, if any: with duplicate
/// keys, the last entry wins.
pub open spec fn host_lookup(os: Seq<(String, HostValue)>, k: Seq<char>) -> Option<HostValue>
    decreases os.len(),
{
    if os.len() == 0 {
        None
    } else if os.last().0@ == k {
        Some(os.last().1)
    } else {
        host_lookup(os.drop_last(), k)
    }
}

/// Insertion binds the inserted key to the new value and leaves every
/// other key bound as before.
proof fn lemma_insert_sorted_lookup(
    key: Seq<char>,
    v: GValue,
    s: Seq<(Seq<char>, GValue)>,
    k: Seq<char>,
)
    ensures
        lookup(insert_sorted(key, v, s), k) == if k == key {
            Some(v)
        } else {
            lookup(s, k)
        },
    decreases s.len(),
{
    let r = insert_sorted(key, v, s);
    if s.len() == 0 {
        assert(r == seq![(key, v)]);
        if k != key {
            assert(r.drop_first() =~= Seq::<(Seq<char>, GValue)>::empty());
            assert(lookup(r, k) == lookup(r.drop_first(), k));
        }
    } else if str_lt(s[0].0, key) {
        let rd = insert_sorted(key, v, s.drop_first());
        lemma_insert_sorted_lookup(key, v, s.drop_first(), k);
        assert(r == seq![s[0]] + rd);
        assert(r[0] == s[0]);
        if s[0].0 == k {
            if k == key {
                lemma_str_lt_asymmetric(s[0].0, key);
            }
        } else {
            assert(r.drop_first() =~= rd);
        }
    } else if s[0].0 == key {
        assert(r == s.update(0, (key, v)));
        if k != key {
            assert(r.drop_first() =~= s.drop_first());
        }
    } else {
        assert(r == seq![(key, v)] + s);
        if k != key {
            assert(r.drop_first() =~= s);
        }
    }
}

/// The record an object converts to binds each key to the conversion of
/// the last source entry carrying that key.
proof fn lemma_convert_model_entries_lookup(os: Seq<(String, HostValue)>, k: Seq<char>)
    ensures
        lookup(convert_model_entries(os), k) == match host_lookup(os, k) {
            Some(h) => Some(convert_model(h)),
            None => None,
        },
    decreases os,
{
    if os.len() > 0 {
        lemma_convert_model_entries_lookup(os.drop_last(), k);
        lemma_insert_sorted_lookup(
            os.last().0@,
            convert_model(os.last().1),
            convert_model_entries(os.drop_last()),
            k,
        );
    }
}

/// An object converts to a record binding each key to the conversion of
/// the last source entry carrying that key, and no other key.
pub proof fn lemma_convert_object_lookup(t: HostValue, k: Seq<char>)
    requires
        t is Object,
    ensures
        convert_model(t) matches GValue::Record(es) && lookup(es, k) == match host_lookup(
            t->Object_0@,
            k,
        ) {
            Some(h) => Some(convert_model(h)),
            None => None,
        },
{
    lemma_convert_model_entries_lookup(t->Object_0@, k);
}

/// A null input converts to the zero scalar.
pub proof fn lemma_convert_null()
    ensures
        convert_model(HostValue::Null) == GValue::Scalar(0),
{
}

/// A boolean converts to the one scalar when true and the zero scalar
/// when false.
pub proof fn lemma_convert_bool(b: bool)
    ensures
        convert_model(HostValue::Bool(b)) == GValue::Scalar(if b { 1nat } else { 0nat }),
{
}

/// A string converts to its text, unchanged.
pub proof fn lemma_convert_text(t: HostValue)
    requires
        t is Text,
    ensures
        convert_model(t) == GValue::Text(t->Text_0@),
{
}

/// An array converts elementwise, preserving order and length exactly.
pub proof fn lemma_convert_array_order(t: HostValue)
    requires
        t is Array,
    ensures
        convert_model(t) matches GValue::Sequence(vs) && vs.len() == t->Array_0@.len() && forall|
            i: int,
        | 0 <= i < vs.len() ==> #[trigger] vs[i] == convert_model(t->Array_0@[i]),
{
    lemma_convert_model_seq_pointwise(t->Array_0@);
}

/// A byte array converts to the sequence of its bytes' scalar embeddings,
/// in order — never to text.
pub proof fn lemma_convert_byte_array(t: HostValue, bytes: Seq<u8>)
    requires
        t matches HostValue::Array(elems) && elems@.len() == bytes.len() && forall|i: int|
            0 <= i < bytes.len() ==> #[trigger] elems@[i] == HostValue::Num(
                Number::Signed(bytes[i] as i64),
            ),
    ensures
        convert_model(t) matches GValue::Sequence(vs) && vs.len() == bytes.len() && forall|i: int|
            0 <= i < bytes.len() ==> #[trigger] vs[i] == GValue::Scalar(bytes[i] as nat),
{
    lemma_convert_model_seq_pointwise(t->Array_0@);
    let vs = convert_model(t)->Sequence_0;
    assert forall|i: int| 0 <= i < bytes.len() implies #[trigger] vs[i] == GValue::Scalar(
        bytes[i] as nat,
    ) by {
        assert(t->Array_0@[i] == HostValue::Num(Number::Signed(bytes[i] as i64)));
        assert(vs[i] == convert_model(t->Array_0@[i]));
        assert(embed_signed(bytes[i] as i64 as int) == bytes[i] as int);
    }
}

/// An object converts to a record whose keys stand in strictly ascending
/// lexicographic order, regardless of the source order of its entries.
pub proof fn lemma_convert_object_sorted(t: HostValue)
    requires
        t is Object,
    ensures
        convert_model(t) matches GValue::Record(es) && keys_sorted(es),
{
    lemma_convert_model_entries_sorted(t->Object_0@);
}

} // verus!
