//! Merging of configuration documents: deep merge of objects with array instruction keys
//! (`key::^`, `key::$`, `key::N`), and the assembly of the runtime configuration.
use vstd::prelude::*;
use crate::json::{Json, JsonValue, json_view, view_entries, view_entry, view_items, lemma_view_entries, lemma_view_items, copy_value};
use crate::text::{chars_of, string_from_chars, text_eq, push_decimal, decimal};
use crate::controller::logs::parsed_level;
use crate::text::{ascii_lowercase_is, lower_of};
use crate::app::config::{ConfigEntry, OverrideEntry, ClashSettings, TunConfig, LogLevel, TunStack, strings_view};

verus! {

/// What an array instruction key asks for.
#[derive(Clone, Copy, PartialEq, Eq, Debug)]
pub enum ArrayOp {
    Prepend,
    Append,
    Insert(usize),
}

// ---------------------------------------------------------------------------
// Instruction keys

pub open spec fn is_digit(c: char) -> bool {
    '0' <= c <= '9'
}

pub open spec fn all_digits(s: Seq<char>) -> bool {
    s.len() > 0 && forall|j: int| 0 <= j < s.len() ==> is_digit(#[trigger] s[j])
}

/// `s` ends with `::` followed by `c`.
pub open spec fn ends_with_marker(s: Seq<char>, c: char) -> bool {
    s.len() >= 3 && s[s.len() - 3] == ':' && s[s.len() - 2] == ':' && s[s.len() - 1] == c
}

pub open spec fn is_sep_at(s: Seq<char>, i: int) -> bool {
    0 <= i && i + 1 < s.len() && s[i] == ':' && s[i + 1] == ':'
}

/// The start of the last `::` that begins at or before `i`.
pub open spec fn last_sep_from(s: Seq<char>, i: int) -> Option<int>
    decreases i + 1,
{
    if i < 0 {
        None
    } else if is_sep_at(s, i) {
        Some(i)
    } else {
        last_sep_from(s, i - 1)
    }
}

/// The start of the last occurrence of `::` in `s`.
pub open spec fn last_sep(s: Seq<char>) -> Option<int> {
    last_sep_from(s, s.len() - 2)
}

/// `key::N` with `N` a non-empty run of ASCII digits after the last `::`.
pub open spec fn has_index_suffix(k: Seq<char>) -> bool {
    match last_sep(k) {
        Some(i) => all_digits(k.subrange(i + 2, k.len() as int)),
        None => false,
    }
}

/// A key that is an array instruction rather than a value.
pub open spec fn instruction_key(k: Seq<char>) -> bool {
    ends_with_marker(k, '^') || ends_with_marker(k, '$') || has_index_suffix(k)
}

/// The value of a run of decimal digits.
pub open spec fn digits_value(s: Seq<char>) -> nat
    decreases s.len(),
{
    if s.len() == 0 {
        0
    } else {
        digits_value(s.subrange(0, s.len() - 1)) * 10 + ((s[s.len() - 1] as nat) - ('0' as nat)) as nat
    }
}

/// One more digit: ten times the value so far, plus the digit.
pub proof fn lemma_digits_value_step(s: Seq<char>, i: int)
    requires
        0 <= i < s.len(),
    ensures
        digits_value(s.subrange(0, i + 1)) == digits_value(s.subrange(0, i)) * 10 + ((s[i] as nat) - ('0' as nat)) as nat,
{
    assert(s.subrange(0, i + 1).subrange(0, i) =~= s.subrange(0, i));
}

/// Over digits, a longer prefix has a value at least as large.
pub proof fn lemma_digits_value_grows(s: Seq<char>, i: int, j: int)
    requires
        0 <= i <= j <= s.len(),
        forall|k: int| 0 <= k < s.len() ==> is_digit(#[trigger] s[k]),
    ensures
        digits_value(s.subrange(0, i)) <= digits_value(s.subrange(0, j)),
    decreases j - i,
{
    if i < j {
        lemma_digits_value_grows(s, i, j - 1);
        lemma_digits_value_step(s, j - 1);
    }
}

/// A parsed index; an index too large for `usize` stands for `usize::MAX`.
pub open spec fn clamp_index(n: nat) -> usize {
    if n > usize::MAX { usize::MAX } else { n as usize }
}

/// The target key and the operation named by an instruction key.
pub open spec fn instruction_of(k: Seq<char>) -> Option<(Seq<char>, ArrayOp)> {
    if ends_with_marker(k, '^') {
        Some((k.subrange(0, k.len() - 3), ArrayOp::Prepend))
    } else if ends_with_marker(k, '$') {
        Some((k.subrange(0, k.len() - 3), ArrayOp::Append))
    } else if has_index_suffix(k) {
        let i = last_sep(k)->0;
        Some((k.subrange(0, i), ArrayOp::Insert(clamp_index(digits_value(k.subrange(i + 2, k.len() as int))))))
    } else {
        None
    }
}

// ---------------------------------------------------------------------------
// Array operations

pub open spec fn array_items(v: Json) -> Seq<Json> {
    match v {
        Json::Array(s) => s,
        _ => Seq::empty(),
    }
}

pub open spec fn operand_items(v: Json) -> Seq<Json> {
    match v {
        Json::Array(s) => s,
        _ => seq![v],
    }
}

/// Where an `Insert(index)` places the new items: after position `index`, or at the end
/// when `index` is not below the length.
pub open spec fn insert_position(index: usize, len: nat) -> int {
    if index >= len { len as int } else { index + 1 }
}

/// The array that an instruction leaves under its target key. A missing target, or one
/// that is not an array, counts as an empty array; an operand that is not an array counts
/// as a one-item array.
pub open spec fn array_op_result(target: Json, op: ArrayOp, other: Json) -> Json {
    let base = array_items(target);
    let add = operand_items(other);
    Json::Array(
        match op {
            ArrayOp::Prepend => add + base,
            ArrayOp::Append => base + add,
            ArrayOp::Insert(index) => {
                let p = insert_position(index, base.len());
                base.subrange(0, p) + add + base.subrange(p, base.len() as int)
            },
        },
    )
}

// ---------------------------------------------------------------------------
// Deep merge

/// The first position of `k` among the entries.
pub open spec fn find_key(m: Seq<(Seq<char>, Json)>, k: Seq<char>) -> Option<int>
    decreases m.len(),
{
    if m.len() == 0 {
        None
    } else {
        match find_key(m.subrange(0, m.len() - 1), k) {
            Some(i) => Some(i),
            None => if m[m.len() - 1].0 == k { Some(m.len() - 1) } else { None },
        }
    }
}

/// One ordinary key of the overriding object merged into the entries.
pub open spec fn step_normal(m: Seq<(Seq<char>, Json)>, e: (Seq<char>, Json)) -> Seq<(Seq<char>, Json)>
    decreases e, 0nat,
{
    if instruction_key(e.0) {
        m
    } else {
        match find_key(m, e.0) {
            Some(i) => m.update(i, (m[i].0, merged(m[i].1, e.1))),
            None => m.push((e.0, merged(Json::Object(Seq::empty()), e.1))),
        }
    }
}

/// The ordinary keys of `o`, merged in order into `m`.
pub open spec fn merge_normal(m: Seq<(Seq<char>, Json)>, o: Seq<(Seq<char>, Json)>) -> Seq<(Seq<char>, Json)>
    decreases o, 0nat,
{
    if o.len() == 0 {
        m
    } else {
        step_normal(merge_normal(m, o.subrange(0, o.len() - 1)), o[o.len() - 1])
    }
}

/// One instruction key of the overriding object applied to the entries.
pub open spec fn step_instruction(m: Seq<(Seq<char>, Json)>, e: (Seq<char>, Json)) -> Seq<(Seq<char>, Json)> {
    match instruction_of(e.0) {
        Some((t, op)) => match find_key(m, t) {
            Some(i) => m.update(i, (m[i].0, array_op_result(m[i].1, op, e.1))),
            None => m.push((t, array_op_result(Json::Array(Seq::empty()), op, e.1))),
        },
        None => m,
    }
}

/// The instruction keys of `o`, applied in order to `m`.
pub open spec fn merge_instructions(m: Seq<(Seq<char>, Json)>, o: Seq<(Seq<char>, Json)>) -> Seq<(Seq<char>, Json)>
    decreases o.len(),
{
    if o.len() == 0 {
        m
    } else {
        step_instruction(merge_instructions(m, o.subrange(0, o.len() - 1)), o[o.len() - 1])
    }
}

/// `other` merged over `base`: an object merges key by key, ordinary keys first and then
/// the instruction keys, each group in the order of `other`, into `base` when that is an
/// object and into an empty object otherwise (so its instructions act at every depth,
/// a missing target counting as an empty array); anything else replaces `base`.
pub open spec fn merged(base: Json, other: Json) -> Json
    decreases other, 1nat,
{
    match other {
        Json::Object(o) => {
            let b = match base {
                Json::Object(b) => b,
                _ => Seq::empty(),
            };
            Json::Object(merge_instructions(merge_normal(b, o), o))
        },
        _ => other,
    }
}


// ---------------------------------------------------------------------------
// Executable instruction parsing

/// The characters `s[from..to]`.
pub fn sub_chars(s: &Vec<char>, from: usize, to: usize) -> (r: Vec<char>)
    requires
        from <= to <= s.len(),
    ensures
        r@ == s@.subrange(from as int, to as int),
{
    let mut r: Vec<char> = Vec::new();
    let mut i = from;
    while i < to
        invariant
            from <= i <= to,
            to <= s.len(),
            r@ == s@.subrange(from as int, i as int),
        decreases to - i,
    {
        r.push(s[i]);
        i = i + 1;
    }
    r
}

fn ends_with_marker_chars(s: &Vec<char>, c: char) -> (r: bool)
    ensures
        r == ends_with_marker(s@, c),
{
    let n = s.len();
    n >= 3 && s[n - 3] == ':' && s[n - 2] == ':' && s[n - 1] == c
}

proof fn lemma_last_sep_from(s: Seq<char>, i: int)
    ensures
        match last_sep_from(s, i) {
            Some(j) => j <= i && is_sep_at(s, j) && forall|t: int| j < t <= i ==> !is_sep_at(s, t),
            None => forall|t: int| t <= i ==> !is_sep_at(s, t),
        },
    decreases i + 1,
{
    if i >= 0 {
        lemma_last_sep_from(s, i - 1);
    }
}

fn last_sep_chars(s: &Vec<char>) -> (r: Option<usize>)
    ensures
        match r {
            Some(i) => last_sep(s@) == Some(i as int) && i + 1 < s.len(),
            None => last_sep(s@) is None,
        },
{
    proof { lemma_last_sep_from(s@, s@.len() - 2); }
    let n = s.len();
    if n < 2 {
        return None;
    }
    let mut i: usize = n - 1;
    while i > 0
        invariant
            0 <= i <= n - 1,
            n == s.len(),
            last_sep(s@) == last_sep_from(s@, i as int - 1),
        decreases i,
    {
        if s[i - 1] == ':' && s[i] == ':' {
            return Some(i - 1);
        }
        i = i - 1;
    }
    None
}

fn all_digits_from(s: &Vec<char>, from: usize) -> (r: bool)
    requires
        from <= s.len(),
    ensures
        r == all_digits(s@.subrange(from as int, s.len() as int)),
{
    if from >= s.len() {
        return false;
    }
    let mut i = from;
    while i < s.len()
        invariant
            from <= i <= s.len(),
            forall|j: int| from <= j < i ==> is_digit(s@[j]),
        decreases s.len() - i,
    {
        if !(s[i] >= '0' && s[i] <= '9') {
            proof {
                assert(!is_digit(s@.subrange(from as int, s.len() as int)[i - from]));
            }
            return false;
        }
        i = i + 1;
    }
    true
}

/// Whether a key is an array instruction (`key::^`, `key::$` or `key::N`).
pub fn is_instruction_key(key: &str) -> (r: bool)
    ensures
        r == instruction_key(key@),
{
    let s = chars_of(key);
    if ends_with_marker_chars(&s, '^') || ends_with_marker_chars(&s, '$') {
        return true;
    }
    match last_sep_chars(&s) {
        Some(i) => all_digits_from(&s, i + 2),
        None => false,
    }
}

/// The value of the digits `s[from..]`, or `usize::MAX` when it does not fit.
fn parse_index(s: &Vec<char>, from: usize) -> (r: usize)
    requires
        from < s.len(),
        all_digits(s@.subrange(from as int, s.len() as int)),
    ensures
        r == clamp_index(digits_value(s@.subrange(from as int, s.len() as int))),
{
    let ghost d = s@.subrange(from as int, s.len() as int);
    assert forall|t: int| 0 <= t < d.len() implies is_digit(#[trigger] d[t]) by {}
    let mut value: usize = 0;
    let mut i = from;
    while i < s.len()
        invariant
            from <= i <= s.len(),
            d == s@.subrange(from as int, s.len() as int),
            forall|t: int| 0 <= t < d.len() ==> is_digit(#[trigger] d[t]),
            value as nat == digits_value(d.subrange(0, i - from)),
        decreases s.len() - i,
    {
        let c = s[i];
        proof {
            assert(d[i - from] == s@[i as int]);
            assert(is_digit(c));
        }
        let digit = (c as u32 - '0' as u32) as usize;
        proof {
            let p = d.subrange(0, i - from + 1);
            assert(p.subrange(0, p.len() - 1) =~= d.subrange(0, i - from));
            assert(p[p.len() - 1] == s@[i as int]);
        }
        if value > (usize::MAX - digit) / 10 {
            proof {
                assert(digits_value(d.subrange(0, i - from + 1)) > usize::MAX);
                lemma_digits_value_grows(d, (i - from + 1) as int, d.len() as int);
                assert(d.subrange(0, d.len() as int) =~= d);
            }
            return usize::MAX;
        }
        value = value * 10 + digit;
        i = i + 1;
    }
    proof { assert(d.subrange(0, d.len() as int) =~= d); }
    value
}

/// The target key and operation of an instruction key; `None` for an ordinary key.
pub fn parse_instruction(key: &str) -> (r: Option<(String, ArrayOp)>)
    ensures
        match r {
            Some((t, op)) => instruction_of(key@) == Some((t@, op)),
            None => instruction_of(key@) is None,
        },
{
    let s = chars_of(key);
    let n = s.len();
    if ends_with_marker_chars(&s, '^') {
        let t = sub_chars(&s, 0, n - 3);
        return Some((string_from_chars(&t), ArrayOp::Prepend));
    }
    if ends_with_marker_chars(&s, '$') {
        let t = sub_chars(&s, 0, n - 3);
        return Some((string_from_chars(&t), ArrayOp::Append));
    }
    match last_sep_chars(&s) {
        Some(i) => {
            if all_digits_from(&s, i + 2) {
                let index = parse_index(&s, i + 2);
                let t = sub_chars(&s, 0, i);
                Some((string_from_chars(&t), ArrayOp::Insert(index)))
            } else {
                None
            }
        },
        None => None,
    }
}


// ---------------------------------------------------------------------------
// Executable array operations

/// Appends copies of `src[lo..hi]` to `out`.
fn append_copies(out: &mut Vec<JsonValue>, src: &Vec<JsonValue>, lo: usize, hi: usize)
    requires
        lo <= hi <= src.len(),
    ensures
        view_items(final(out)@) == view_items(old(out)@) + view_items(src@).subrange(lo as int, hi as int),
{
    let ghost start = old(out)@;
    let mut i = lo;
    while i < hi
        invariant
            lo <= i <= hi <= src.len(),
            out.len() == start.len() + (i - lo),
            forall|j: int| 0 <= j < start.len() ==> #[trigger] out@[j] == start[j],
            forall|j: int| start.len() <= j < out.len() ==> #[trigger] json_view(out@[j]) == json_view(src@[j - start.len() + lo]),
        decreases hi - i,
    {
        let c = copy_value(&src[i]);
        out.push(c);
        i = i + 1;
    }
    proof {
        lemma_view_items(out@);
        lemma_view_items(start);
        lemma_view_items(src@);
        assert(view_items(out@) =~= view_items(start) + view_items(src@).subrange(lo as int, hi as int));
    }
}

/// Applies an array instruction to `target` with the instruction's value `other`.
pub fn apply_array_op(target: &mut JsonValue, op: ArrayOp, other: &JsonValue)
    ensures
        final(target)@ == array_op_result(old(target)@, op, other@),
{
    let empty: Vec<JsonValue> = Vec::new();
    let mut add: Vec<JsonValue> = Vec::new();
    match other {
        JsonValue::Array(items) => {
            append_copies(&mut add, items, 0, items.len());
            proof {
                lemma_view_items(items@);
                assert(view_items(items@).subrange(0, items.len() as int) =~= view_items(items@));
            }
        },
        _ => {
            let c = copy_value(other);
            add.push(c);
            proof {
                lemma_view_items(add@);
                assert(view_items(add@) =~= seq![other@]);
            }
        },
    }
    assert(view_items(add@) == operand_items(other@));
    let mut out: Vec<JsonValue> = Vec::new();
    {
        let base: &Vec<JsonValue> = match &*target {
            JsonValue::Array(items) => items,
            _ => &empty,
        };
        assert(view_items(base@) == array_items(old(target)@));
        proof { lemma_view_items(base@); lemma_view_items(add@); }
        match op {
            ArrayOp::Prepend => {
                append_copies(&mut out, &add, 0, add.len());
                append_copies(&mut out, base, 0, base.len());
                proof {
                    assert(view_items(add@).subrange(0, add.len() as int) =~= view_items(add@));
                    assert(view_items(base@).subrange(0, base.len() as int) =~= view_items(base@));
                    assert(view_items(out@) =~= view_items(add@) + view_items(base@));
                }
            },
            ArrayOp::Append => {
                append_copies(&mut out, base, 0, base.len());
                append_copies(&mut out, &add, 0, add.len());
                proof {
                    assert(view_items(add@).subrange(0, add.len() as int) =~= view_items(add@));
                    assert(view_items(base@).subrange(0, base.len() as int) =~= view_items(base@));
                    assert(view_items(out@) =~= view_items(base@) + view_items(add@));
                }
            },
            ArrayOp::Insert(index) => {
                let p = if index >= base.len() { base.len() } else { index + 1 };
                append_copies(&mut out, base, 0, p);
                append_copies(&mut out, &add, 0, add.len());
                append_copies(&mut out, base, p, base.len());
                proof {
                    assert(view_items(add@).subrange(0, add.len() as int) =~= view_items(add@));
                }
            },
        }
    }
    *target = JsonValue::Array(out);
}


// ---------------------------------------------------------------------------
// Executable deep merge

pub proof fn lemma_find_key(m: Seq<(Seq<char>, Json)>, k: Seq<char>)
    ensures
        match find_key(m, k) {
            Some(j) => 0 <= j < m.len() && m[j].0 == k && forall|t: int| 0 <= t < j ==> m[t].0 != k,
            None => forall|t: int| 0 <= t < m.len() ==> m[t].0 != k,
        },
    decreases m.len(),
{
    if m.len() > 0 {
        let p = m.subrange(0, m.len() - 1);
        lemma_find_key(p, k);
        assert forall|t: int| 0 <= t < p.len() implies p[t] == m[t] by {}
    }
}

/// The position of the first entry whose key is `key`.
fn find_entry(m: &Vec<(String, JsonValue)>, key: &String) -> (r: Option<usize>)
    ensures
        match r {
            Some(j) => j < m.len() && find_key(view_entries(m@), key@) == Some(j as int),
            None => find_key(view_entries(m@), key@) is None,
        },
{
    proof {
        lemma_view_entries(m@);
        lemma_find_key(view_entries(m@), key@);
    }
    let mut i: usize = 0;
    while i < m.len()
        invariant
            i <= m.len(),
            view_entries(m@).len() == m.len(),
            forall|t: int| 0 <= t < m.len() ==> #[trigger] view_entries(m@)[t] == view_entry(m@[t]),
            forall|t: int| 0 <= t < i ==> m@[t].0@ != key@,
        decreases m.len() - i,
    {
        if m[i].0 == *key {
            proof {
                lemma_find_key(view_entries(m@), key@);
                assert(view_entries(m@)[i as int].0 == key@);
                assert forall|t: int| 0 <= t < i implies view_entries(m@)[t].0 != key@ by {
                    assert(view_entries(m@)[t] == view_entry(m@[t]));
                }
            }
            return Some(i);
        }
        i = i + 1;
    }
    proof {
        assert forall|t: int| 0 <= t < m.len() implies view_entries(m@)[t].0 != key@ by {
            assert(view_entries(m@)[t] == view_entry(m@[t]));
        }
    }
    None
}

proof fn lemma_entries_update(m: Seq<(String, JsonValue)>, j: int, e: (String, JsonValue))
    requires
        0 <= j < m.len(),
    ensures
        view_entries(m.update(j, e)) == view_entries(m).update(j, view_entry(e)),
{
    lemma_view_entries(m);
    lemma_view_entries(m.update(j, e));
    assert(view_entries(m.update(j, e)) =~= view_entries(m).update(j, view_entry(e)));
}

proof fn lemma_entries_push(m: Seq<(String, JsonValue)>, e: (String, JsonValue))
    ensures
        view_entries(m.push(e)) == view_entries(m).push(view_entry(e)),
{
    lemma_view_entries(m);
    lemma_view_entries(m.push(e));
    assert(view_entries(m.push(e)) =~= view_entries(m).push(view_entry(e)));
}

/// Merges `other` over `base` in place, as `merged` says: an object merges key by key
/// (ordinary keys, then array instruction keys) into `base`, or into an empty object when
/// `base` is not one; anything else replaces `base` with a copy.
#[verifier::loop_isolation(false)]
pub fn deep_merge(base: &mut JsonValue, other: &JsonValue)
    ensures
        final(base)@ == merged(old(base)@, other@),
    decreases other,
{
    let is_object = match &*base {
        JsonValue::Object(_) => true,
        _ => false,
    };
    match other {
        JsonValue::Object(om) => {
            let mut tmp = JsonValue::Null;
            std::mem::swap(&mut tmp, base);
            let mut m: Vec<(String, JsonValue)> = match tmp {
                JsonValue::Object(entries) => entries,
                _ => Vec::new(),
            };
            let ghost b = view_entries(m@);
            let ghost o = view_entries(om@);
            proof {
                lemma_view_entries(om@);
                assert(o.subrange(0, 0) =~= Seq::<(Seq<char>, Json)>::empty());
            }
            let mut i: usize = 0;
            while i < om.len()
                invariant
                    i <= om.len(),
                    o == view_entries(om@),
                    o.len() == om.len(),
                    forall|t: int| 0 <= t < om.len() ==> #[trigger] o[t] == view_entry(om@[t]),
                    view_entries(m@) == merge_normal(b, o.subrange(0, i as int)),
                decreases om.len() - i,
            {
                let key = &om[i].0;
                let value = &om[i].1;
                proof {
                    assert(o.subrange(0, i + 1).subrange(0, i as int) =~= o.subrange(0, i as int));
                    assert(o.subrange(0, i + 1)[i as int] == o[i as int]);
                    assert(o[i as int] == (key@, value@));
                }
                let ghost cur = view_entries(m@);
                proof {
                    assert(merge_normal(b, o.subrange(0, i + 1)) == step_normal(cur, (key@, value@)));
                }
                if !is_instruction_key(key.as_str()) {
                    match find_entry(&m, key) {
                        Some(j) => {
                            proof { lemma_view_entries(m@); }
                            let ghost before = m@;
                            let (k0, mut v0) = m.remove(j);
                            let ghost old_v = v0@;
                            proof {
                                assert(decreases_to!(*other => om@[i as int].1));
                                assert(cur[j as int] == (k0@, old_v));
                            }
                            deep_merge(&mut v0, value);
                            let ghost new_entry = (k0, v0);
                            m.insert(j, (k0, v0));
                            proof {
                                assert(m@ =~= before.update(j as int, new_entry));
                                lemma_entries_update(before, j as int, new_entry);
                                assert(view_entry(new_entry) == (k0@, merged(old_v, value@)));
                                assert(view_entries(m@) == cur.update(j as int, (cur[j as int].0, merged(cur[j as int].1, value@))));
                            }
                        },
                        None => {
                            let k1 = key.clone();
                            let mut v1 = JsonValue::Object(Vec::new());
                            proof {
                                assert(decreases_to!(*other => om@[i as int].1));
                                lemma_view_entries(Seq::<(String, JsonValue)>::empty());
                                assert(v1@ == Json::Object(Seq::empty()));
                            }
                            deep_merge(&mut v1, value);
                            proof { lemma_entries_push(m@, (k1, v1)); }
                            m.push((k1, v1));
                        },
                    }
                }
                i = i + 1;
            }
            proof {
                assert(o.subrange(0, om.len() as int) =~= o);
                assert(o.subrange(0, 0) =~= Seq::<(Seq<char>, Json)>::empty());
            }
            let ghost n = view_entries(m@);
            i = 0;
            while i < om.len()
                invariant
                    i <= om.len(),
                    o == view_entries(om@),
                    o.len() == om.len(),
                    forall|t: int| 0 <= t < om.len() ==> #[trigger] o[t] == view_entry(om@[t]),
                    view_entries(m@) == merge_instructions(n, o.subrange(0, i as int)),
                decreases om.len() - i,
            {
                let key = &om[i].0;
                let value = &om[i].1;
                proof {
                    assert(o.subrange(0, i + 1).subrange(0, i as int) =~= o.subrange(0, i as int));
                    assert(o.subrange(0, i + 1)[i as int] == o[i as int]);
                    assert(o[i as int] == (key@, value@));
                }
                if is_instruction_key(key.as_str()) {
                    match parse_instruction(key.as_str()) {
                        Some((target, op)) => {
                            match find_entry(&m, &target) {
                                Some(j) => {
                                    proof { lemma_view_entries(m@); }
                                    let ghost before = m@;
                                    let (k0, mut v0) = m.remove(j);
                                    apply_array_op(&mut v0, op, value);
                                    m.insert(j, (k0, v0));
                                    proof {
                                        assert(m@ =~= before.update(j as int, m@[j as int]));
                                        lemma_entries_update(before, j as int, m@[j as int]);
                                    }
                                },
                                None => {
                                    let mut fresh = JsonValue::Array(Vec::new());
                                    proof {
                                        lemma_view_items(Seq::<JsonValue>::empty());
                                        assert(fresh@ == Json::Array(Seq::empty()));
                                    }
                                    apply_array_op(&mut fresh, op, value);
                                    proof { lemma_entries_push(m@, (target, fresh)); }
                                    m.push((target, fresh));
                                },
                            }
                        },
                        None => {},
                    }
                } else {
                    proof { assert(instruction_of(key@) is None); }
                }
                i = i + 1;
            }
            proof { assert(o.subrange(0, om.len() as int) =~= o); }
            *base = JsonValue::Object(m);
        },
        _ => {
            *base = copy_value(other);
        },
    }
}


// ---------------------------------------------------------------------------
// Assembly of the runtime configuration

/// The positions whose flag is set, in increasing order.
pub open spec fn enabled_positions(flags: Seq<bool>) -> Seq<int>
    decreases flags.len(),
{
    if flags.len() == 0 {
        Seq::empty()
    } else {
        let p = enabled_positions(flags.drop_last());
        if flags.last() { p.push(flags.len() - 1) } else { p }
    }
}

/// The `enabled` flag of each configuration source.
pub open spec fn config_flags(configs: Seq<ConfigEntry>) -> Seq<bool> {
    configs.map_values(|e: ConfigEntry| e.enabled)
}

/// The positions of the enabled configuration sources, in list order: the order in which
/// their documents are merged.
pub fn enabled_config_indices(configs: &Vec<ConfigEntry>) -> (r: Vec<usize>)
    ensures
        r@.map_values(|x: usize| x as int) == enabled_positions(config_flags(configs@)),
{
    let ghost flags = config_flags(configs@);
    let mut r: Vec<usize> = Vec::new();
    let mut i: usize = 0;
    proof { assert(flags.subrange(0, 0) =~= Seq::<bool>::empty()); }
    while i < configs.len()
        invariant
            i <= configs.len(),
            flags == config_flags(configs@),
            r@.map_values(|x: usize| x as int) == enabled_positions(flags.subrange(0, i as int)),
        decreases configs.len() - i,
    {
        proof {
            assert(flags.subrange(0, i + 1).drop_last() =~= flags.subrange(0, i as int));
            assert(flags.subrange(0, i + 1).last() == configs@[i as int].enabled);
        }
        if configs[i].enabled {
            let ghost before = r@;
            r.push(i);
            proof {
                assert(r@.map_values(|x: usize| x as int) =~= before.map_values(|x: usize| x as int).push(i as int));
            }
        }
        i = i + 1;
    }
    proof { assert(flags.subrange(0, configs.len() as int) =~= flags); }
    r
}

/// Override `a` is merged before override `b`: a larger `sort` first, and among equal
/// `sort` values the one that comes first in the list.
pub open spec fn merged_before(overrides: Seq<OverrideEntry>, a: int, b: int) -> bool {
    ||| overrides[a].sort > overrides[b].sort
    ||| (overrides[a].sort == overrides[b].sort && a < b)
}

/// Inserting position `i` at `p` keeps a merge-ordered list of earlier enabled positions
/// merge-ordered and complete, when every entry before `p` sorts at least as high as `i`
/// and the entry at `p` (if any) lower.
#[verifier::spinoff_prover]
#[verifier::rlimit(40)]
proof fn lemma_insert_in_merge_order(ov: Seq<OverrideEntry>, before: Seq<usize>, after: Seq<usize>, p: int, i: usize)
    requires
        0 <= p <= before.len(),
        0 <= i < ov.len(),
        ov[i as int].enabled,
        after == before.insert(p, i),
        forall|k: int| 0 <= k < before.len() ==> #[trigger] before[k] < i && ov[before[k] as int].enabled,
        forall|j: int| 0 <= j < i && #[trigger] ov[j].enabled ==> before.contains(j as usize),
        forall|a: int, b: int| 0 <= a < b < before.len() ==> merged_before(ov, #[trigger] before[a] as int, #[trigger] before[b] as int),
        forall|k: int| 0 <= k < p ==> ov[#[trigger] before[k] as int].sort >= ov[i as int].sort,
        p < before.len() ==> ov[before[p] as int].sort < ov[i as int].sort,
    ensures
        forall|k: int| 0 <= k < after.len() ==> #[trigger] after[k] < i + 1 && ov[after[k] as int].enabled,
        forall|j: int| 0 <= j < i + 1 && #[trigger] ov[j].enabled ==> after.contains(j as usize),
        forall|a: int, b: int| 0 <= a < b < after.len() ==> merged_before(ov, #[trigger] after[a] as int, #[trigger] after[b] as int),
{
    assert forall|k: int| p <= k < before.len() implies ov[#[trigger] before[k] as int].sort < ov[i as int].sort by {
        if k > p {
            assert(merged_before(ov, before[p] as int, before[k] as int));
        }
    }
    assert forall|k: int| 0 <= k < after.len() implies #[trigger] after[k] < i + 1 && ov[after[k] as int].enabled by {
        if k < p {
            assert(after[k] == before[k]);
        } else if k > p {
            assert(after[k] == before[k - 1]);
        }
    }
    assert forall|j: int| 0 <= j < i + 1 && #[trigger] ov[j].enabled implies after.contains(j as usize) by {
        if j < i {
            let w = choose|w: int| 0 <= w < before.len() && before[w] == j as usize;
            if w < p {
                assert(after[w] == j as usize);
            } else {
                assert(after[w + 1] == j as usize);
            }
        } else {
            assert(after[p] == i);
        }
    }
    assert forall|a: int, b: int| 0 <= a < b < after.len() implies merged_before(ov, #[trigger] after[a] as int, #[trigger] after[b] as int) by {
        if b < p {
            assert(after[a] == before[a] && after[b] == before[b]);
        } else if b == p {
            assert(after[a] == before[a]);
        } else if a == p {
            assert(after[b] == before[b - 1]);
        } else if a < p {
            assert(after[a] == before[a] && after[b] == before[b - 1]);
        } else {
            assert(after[a] == before[a - 1] && after[b] == before[b - 1]);
        }
    }
}

/// The positions of the enabled overrides in the order in which they are merged: by
/// `sort`, largest first, ties kept in list order.
pub fn override_merge_order(overrides: &Vec<OverrideEntry>) -> (r: Vec<usize>)
    ensures
        forall|k: int| 0 <= k < r.len() ==> #[trigger] r@[k] < overrides.len() && overrides@[r@[k] as int].enabled,
        forall|i: int| 0 <= i < overrides.len() && #[trigger] overrides@[i].enabled ==> r@.contains(i as usize),
        forall|a: int, b: int| 0 <= a < b < r.len() ==> merged_before(overrides@, #[trigger] r@[a] as int, #[trigger] r@[b] as int),
{
    let mut r: Vec<usize> = Vec::new();
    let mut i: usize = 0;
    while i < overrides.len()
        invariant
            i <= overrides.len(),
            forall|k: int| 0 <= k < r.len() ==> #[trigger] r@[k] < i && overrides@[r@[k] as int].enabled,
            forall|j: int| 0 <= j < i && #[trigger] overrides@[j].enabled ==> r@.contains(j as usize),
            forall|a: int, b: int| 0 <= a < b < r.len() ==> merged_before(overrides@, #[trigger] r@[a] as int, #[trigger] r@[b] as int),
        decreases overrides.len() - i,
    {
        if overrides[i].enabled {
            let key = overrides[i].sort;
            let mut p: usize = 0;
            while p < r.len() && overrides[r[p]].sort >= key
                invariant
                    p <= r.len(),
                    i < overrides.len(),
                    key == overrides@[i as int].sort,
                    forall|k: int| 0 <= k < r.len() ==> #[trigger] r@[k] < i && overrides@[r@[k] as int].enabled,
                    forall|k: int| 0 <= k < p ==> overrides@[#[trigger] r@[k] as int].sort >= key,
                decreases r.len() - p,
            {
                p = p + 1;
            }
            let ghost before = r@;
            r.insert(p, i);
            proof { lemma_insert_in_merge_order(overrides@, before, r@, p as int, i); }
        }
        i = i + 1;
    }
    r
}

/// The document of no keys, where merging starts.
pub open spec fn empty_object() -> Json {
    Json::Object(Seq::empty())
}

/// The documents merged in order over `acc`.
pub open spec fn merged_all(acc: Json, docs: Seq<Json>) -> Json
    decreases docs.len(),
{
    if docs.len() == 0 {
        acc
    } else {
        merged(merged_all(acc, docs.drop_last()), docs.last())
    }
}

/// An entry that the finished runtime configuration never carries: the controller address
/// and the secret (the application sets them itself), and a proxy port whose value is null.
pub open spec fn dropped_after_merge(e: (Seq<char>, Json)) -> bool {
    ||| e.0 == "external-controller"@
    ||| e.0 == "secret"@
    ||| (e.1 == Json::Null && (e.0 == "port"@ || e.0 == "socks-port"@ || e.0 == "mixed-port"@))
}

/// The merged document with the dropped entries taken out of its top level.
pub open spec fn finalized(j: Json) -> Json {
    match j {
        Json::Object(m) => Json::Object(m.filter(|e: (Seq<char>, Json)| !dropped_after_merge(e))),
        _ => j,
    }
}

/// The name under which a log level is written.
pub open spec fn log_level_name(l: LogLevel) -> Seq<char> {
    match l {
        LogLevel::Silent => "silent"@,
        LogLevel::Error => "error"@,
        LogLevel::Warning => "warning"@,
        LogLevel::Info => "info"@,
        LogLevel::Debug => "debug"@,
    }
}

/// The log level is written under its own lowercase name: the core's log levels read the
/// name back as the same level (every level but `silent`, which is not a level of log
/// lines), and no two levels share a name.
pub proof fn law_log_level_name_reads_back(l: LogLevel, m: LogLevel)
    ensures
        l == LogLevel::Error ==> parsed_level(log_level_name(l)) == Some(crate::controller::logs::LogLevel::Error),
        l == LogLevel::Warning ==> parsed_level(log_level_name(l)) == Some(crate::controller::logs::LogLevel::Warning),
        l == LogLevel::Info ==> parsed_level(log_level_name(l)) == Some(crate::controller::logs::LogLevel::Info),
        l == LogLevel::Debug ==> parsed_level(log_level_name(l)) == Some(crate::controller::logs::LogLevel::Debug),
        parsed_level(log_level_name(l)) is None ==> l == LogLevel::Silent,
        log_level_name(l) == log_level_name(m) ==> l == m,
        forall|i: int| 0 <= i < log_level_name(l).len() ==> 'a' <= #[trigger] log_level_name(l)[i] && log_level_name(l)[i] <= 'z',
{
    reveal_strlit("silent");
    reveal_strlit("error");
    reveal_strlit("warning");
    reveal_strlit("warn");
    reveal_strlit("info");
    reveal_strlit("debug");
    let n = log_level_name(l);
    if l != LogLevel::Silent {
        assert(ascii_lowercase_is(n, n));
    }
    if l == LogLevel::Info {
        assert(!ascii_lowercase_is(n, "warn"@)) by { assert(!lower_of(n[0], "warn"@[0])); }
    }
    if l == LogLevel::Debug {
        assert(!ascii_lowercase_is(n, "error"@)) by { assert(!lower_of(n[0], "error"@[0])); }
    }
    if log_level_name(l) == log_level_name(m) && l != m {
        let a = log_level_name(l);
        let b = log_level_name(m);
        assert(a.len() == b.len());
        assert(a[0] == b[0]);
        assert(a[a.len() - 1] == b[b.len() - 1]);
    }
}

/// The name under which a TUN stack is written.
pub open spec fn tun_stack_name(s: TunStack) -> Seq<char> {
    match s {
        TunStack::System => "system"@,
        TunStack::Gvisor => "gvisor"@,
        TunStack::Mixed => "mixed"@,
    }
}

/// A port, or null when it is not set.
pub open spec fn port_json(p: Option<u16>) -> Json {
    match p {
        Some(n) => Json::Number(decimal(n as nat)),
        None => Json::Null,
    }
}

/// An array of strings.
pub open spec fn strings_json(v: Seq<Seq<char>>) -> Json {
    Json::Array(v.map_values(|s: Seq<char>| Json::Str(s)))
}

/// The TUN settings as a document, with `enable` set to the proxy status; keys in
/// ascending order.
pub open spec fn tun_json(t: TunConfig, enable: bool) -> Json {
    Json::Object(seq![
        ("auto-detect-interface"@, Json::Bool(t.auto_detect_interface)),
        ("auto-route"@, Json::Bool(t.auto_route)),
        ("device"@, Json::Str(t.device@)),
        ("enable"@, Json::Bool(enable)),
        ("exclude-interface"@, strings_json(strings_view(t.exclude_interface@))),
        ("mtu"@, Json::Number(decimal(t.mtu as nat))),
        ("route-exclude-address"@, strings_json(strings_view(t.route_exclude_address@))),
        ("stack"@, Json::Str(tun_stack_name(t.stack))),
        ("strict-route"@, Json::Bool(t.strict_route)),
    ])
}

/// The core settings as a document, keys in ascending order.
pub open spec fn clash_json(c: ClashSettings, tun_enable: bool) -> Json {
    Json::Object(seq![
        ("allow-lan"@, Json::Bool(c.allow_lan)),
        ("bind-address"@, Json::Str(c.bind_address@)),
        ("ipv6"@, Json::Bool(c.ipv6)),
        ("log-level"@, Json::Str(log_level_name(c.log_level))),
        ("mixed-port"@, port_json(c.mixed_port)),
        ("port"@, port_json(c.port)),
        ("socks-port"@, port_json(c.socks_port)),
        ("tun"@, tun_json(c.tun, tun_enable)),
    ])
}

/// The runtime configuration: the configuration documents and then the overrides, in merge
/// order, then the core settings, then the fixed document, with the dropped entries removed.
pub open spec fn runtime_config(layers: Seq<Json>, clash: Json, fixed: Json) -> Json {
    finalized(merged(merged(merged_all(empty_object(), layers), clash), fixed))
}

fn text_value(s: &str) -> (r: JsonValue)
    ensures
        r@ == Json::Str(s@),
{
    JsonValue::Str(String::from_str(s))
}

fn port_value(p: Option<u16>) -> (r: JsonValue)
    ensures
        r@ == port_json(p),
{
    match p {
        Some(n) => {
            let mut s = String::new();
            push_decimal(&mut s, n as u64);
            JsonValue::Number(s)
        },
        None => JsonValue::Null,
    }
}

fn strings_value(v: &Vec<String>) -> (r: JsonValue)
    ensures
        r@ == strings_json(strings_view(v@)),
{
    let mut out: Vec<JsonValue> = Vec::new();
    let mut i: usize = 0;
    while i < v.len()
        invariant
            i <= v.len(),
            out.len() == i,
            forall|j: int| 0 <= j < i ==> #[trigger] json_view(out@[j]) == Json::Str(v@[j]@),
        decreases v.len() - i,
    {
        out.push(JsonValue::Str(v[i].clone()));
        i = i + 1;
    }
    proof {
        lemma_view_items(out@);
        assert(view_items(out@) =~= strings_view(v@).map_values(|s: Seq<char>| Json::Str(s)));
    }
    JsonValue::Array(out)
}

fn log_level_value(l: LogLevel) -> (r: JsonValue)
    ensures
        r@ == Json::Str(log_level_name(l)),
{
    match l {
        LogLevel::Silent => text_value("silent"),
        LogLevel::Error => text_value("error"),
        LogLevel::Warning => text_value("warning"),
        LogLevel::Info => text_value("info"),
        LogLevel::Debug => text_value("debug"),
    }
}

fn tun_stack_value(s: TunStack) -> (r: JsonValue)
    ensures
        r@ == Json::Str(tun_stack_name(s)),
{
    match s {
        TunStack::System => text_value("system"),
        TunStack::Gvisor => text_value("gvisor"),
        TunStack::Mixed => text_value("mixed"),
    }
}

fn entry(k: &str, v: JsonValue) -> (r: (String, JsonValue))
    ensures
        view_entry(r) == (k@, v@),
{
    (String::from_str(k), v)
}

fn tun_value(t: &TunConfig, enable: bool) -> (r: JsonValue)
    ensures
        r@ == tun_json(*t, enable),
{
    let mut m: Vec<(String, JsonValue)> = Vec::new();
    let mut mtu = String::new();
    push_decimal(&mut mtu, t.mtu as u64);
    m.push(entry("auto-detect-interface", JsonValue::Bool(t.auto_detect_interface)));
    m.push(entry("auto-route", JsonValue::Bool(t.auto_route)));
    m.push(entry("device", JsonValue::Str(t.device.clone())));
    m.push(entry("enable", JsonValue::Bool(enable)));
    m.push(entry("exclude-interface", strings_value(&t.exclude_interface)));
    m.push(entry("mtu", JsonValue::Number(mtu)));
    m.push(entry("route-exclude-address", strings_value(&t.route_exclude_address)));
    m.push(entry("stack", tun_stack_value(t.stack)));
    m.push(entry("strict-route", JsonValue::Bool(t.strict_route)));
    proof {
        lemma_view_entries(m@);
        assert(view_entries(m@) =~= tun_json(*t, enable)->Object_0);
    }
    JsonValue::Object(m)
}

/// The core settings as a document, with `tun.enable` set to the TUN proxy status.
pub fn clash_settings_value(c: &ClashSettings, tun_enable: bool) -> (r: JsonValue)
    ensures
        r@ == clash_json(*c, tun_enable),
{
    let mut m: Vec<(String, JsonValue)> = Vec::new();
    m.push(entry("allow-lan", JsonValue::Bool(c.allow_lan)));
    m.push(entry("bind-address", JsonValue::Str(c.bind_address.clone())));
    m.push(entry("ipv6", JsonValue::Bool(c.ipv6)));
    m.push(entry("log-level", log_level_value(c.log_level)));
    m.push(entry("mixed-port", port_value(c.mixed_port)));
    m.push(entry("port", port_value(c.port)));
    m.push(entry("socks-port", port_value(c.socks_port)));
    m.push(entry("tun", tun_value(&c.tun, tun_enable)));
    proof {
        lemma_view_entries(m@);
        assert(view_entries(m@) =~= clash_json(*c, tun_enable)->Object_0);
    }
    JsonValue::Object(m)
}

fn is_dropped_after_merge(key: &String, value: &JsonValue) -> (r: bool)
    ensures
        r == dropped_after_merge((key@, value@)),
{
    let k = key.as_str();
    if text_eq(k, "external-controller") || text_eq(k, "secret") {
        return true;
    }
    let is_null = match value {
        JsonValue::Null => true,
        _ => false,
    };
    is_null && (text_eq(k, "port") || text_eq(k, "socks-port") || text_eq(k, "mixed-port"))
}

/// Takes the dropped entries out of the top level of a merged document.
pub fn finalize_runtime(v: &JsonValue) -> (r: JsonValue)
    ensures
        r@ == finalized(v@),
{
    match v {
        JsonValue::Object(m) => {
            let ghost pred = |e: (Seq<char>, Json)| !dropped_after_merge(e);
            let ghost src = view_entries(m@);
            proof { lemma_view_entries(m@); }
            let mut out: Vec<(String, JsonValue)> = Vec::new();
            let mut i: usize = 0;
            proof { assert(src.subrange(0, 0) =~= Seq::<(Seq<char>, Json)>::empty()); }
            while i < m.len()
                invariant
                    i <= m.len(),
                    pred == (|e: (Seq<char>, Json)| !dropped_after_merge(e)),
                    src == view_entries(m@),
                    src.len() == m.len(),
                    forall|t: int| 0 <= t < m.len() ==> #[trigger] src[t] == view_entry(m@[t]),
                    view_entries(out@) == src.subrange(0, i as int).filter(pred),
                decreases m.len() - i,
            {
                proof {
                    assert(src.subrange(0, i + 1) =~= src.subrange(0, i as int).push(src[i as int]));
                    src.subrange(0, i as int).lemma_filter_push(src[i as int], pred);
                }
                if !is_dropped_after_merge(&m[i].0, &m[i].1) {
                    let k = m[i].0.clone();
                    let c = copy_value(&m[i].1);
                    proof { lemma_entries_push(out@, (k, c)); }
                    out.push((k, c));
                }
                i = i + 1;
            }
            proof { assert(src.subrange(0, m.len() as int) =~= src); }
            JsonValue::Object(out)
        },
        _ => copy_value(v),
    }
}

/// Merges the configuration documents and overrides (in merge order), the core settings
/// (with `tun.enable` set to the TUN proxy status) and the fixed document, then takes out
/// the entries the runtime configuration must not carry.
pub fn merge_runtime_config(
    layers: &Vec<JsonValue>,
    settings: &ClashSettings,
    tun_enable: bool,
    fixed: &JsonValue,
) -> (r: JsonValue)
    ensures
        r@ == runtime_config(view_items(layers@), clash_json(*settings, tun_enable), fixed@),
{
    let ghost docs = view_items(layers@);
    proof {
        lemma_view_items(layers@);
        lemma_view_entries(Seq::<(String, JsonValue)>::empty());
        assert(docs.subrange(0, 0) =~= Seq::<Json>::empty());
    }
    let mut acc = JsonValue::Object(Vec::new());
    proof { assert(view_entries(Seq::<(String, JsonValue)>::empty()) =~= Seq::<(Seq<char>, Json)>::empty()); }
    let mut i: usize = 0;
    while i < layers.len()
        invariant
            i <= layers.len(),
            docs == view_items(layers@),
            docs.len() == layers.len(),
            forall|t: int| 0 <= t < layers.len() ==> #[trigger] docs[t] == json_view(layers@[t]),
            acc@ == merged_all(empty_object(), docs.subrange(0, i as int)),
        decreases layers.len() - i,
    {
        proof {
            assert(docs.subrange(0, i + 1).drop_last() =~= docs.subrange(0, i as int));
            assert(docs.subrange(0, i + 1).last() == docs[i as int]);
        }
        deep_merge(&mut acc, &layers[i]);
        i = i + 1;
    }
    proof { assert(docs.subrange(0, layers.len() as int) =~= docs); }
    let clash = clash_settings_value(settings, tun_enable);
    deep_merge(&mut acc, &clash);
    deep_merge(&mut acc, fixed);
    finalize_runtime(&acc)
}


// ---------------------------------------------------------------------------
// Laws of the merge

/// `key::N` with `N` at or past the end of the target array appends, exactly as
/// `key::$` does.
pub proof fn law_insert_past_end_appends(target: Json, n: usize, other: Json)
    requires
        n >= array_items(target).len(),
    ensures
        array_op_result(target, ArrayOp::Insert(n), other) == array_op_result(target, ArrayOp::Append, other),
{
    let base = array_items(target);
    assert(base.subrange(0, base.len() as int) =~= base);
    assert(base.subrange(base.len() as int, base.len() as int) =~= Seq::<Json>::empty());
    assert(base + operand_items(other) + Seq::<Json>::empty() =~= base + operand_items(other));
}

/// An instruction whose target is missing, or is not an array, acts on an empty array.
pub proof fn law_non_array_target_is_empty(target: Json, op: ArrayOp, other: Json)
    requires
        !(target is Array),
    ensures
        array_op_result(target, op, other) == array_op_result(Json::Array(Seq::empty()), op, other),
{
}

/// A later value that is not an object (an array, say) replaces the earlier one whole.
pub proof fn law_non_object_replaced(base: Json, other: Json)
    requires
        !(other is Object),
    ensures
        merged(base, other) == other,
{
}

/// A later object over an earlier value that is not one (or over nothing) merges into an
/// empty object, so its instructions still act and are not written.
pub proof fn law_object_over_non_object_starts_empty(base: Json, other: Json)
    requires
        !(base is Object),
        other is Object,
    ensures
        merged(base, other) == merged(Json::Object(Seq::empty()), other),
{
}

/// Within one document an ordinary key is merged before any instruction, wherever the
/// instruction stands: `key` first replaces the array, and `key::$` then appends to the
/// new array, so the old items are gone.
pub proof fn law_replacement_before_insertion(b: Seq<(Seq<char>, Json)>, k: Seq<char>, v: Seq<Json>, w: Seq<Json>)
    requires
        !instruction_key(k),
    ensures
        ({
            let o = seq![(k + seq![':', ':', '$'], Json::Array(w)), (k, Json::Array(v))];
            let r = merge_instructions(merge_normal(b, o), o);
            &&& find_key(r, k) is Some
            &&& r[find_key(r, k)->0].1 == Json::Array(v + w)
        }),
{
    let ik = k + seq![':', ':', '$'];
    let o = seq![(ik, Json::Array(w)), (k, Json::Array(v))];
    assert(ends_with_marker(ik, '$'));
    assert(!ends_with_marker(ik, '^'));
    assert(ik.subrange(0, ik.len() - 3) =~= k);
    assert(instruction_key(ik));
    assert(instruction_of(ik) == Some((k, ArrayOp::Append)));
    assert(instruction_of(k) is None);
    let s1 = o.subrange(0, 1);
    let none = Seq::<(Seq<char>, Json)>::empty();
    assert(s1 =~= seq![(ik, Json::Array(w))]);
    assert(s1.subrange(0, 0) =~= none);
    assert(merge_normal(b, none) == b);
    assert(s1[0] == (ik, Json::Array(w)));
    assert(step_normal(b, s1[0]) == b);
    assert(merge_normal(b, s1) == step_normal(merge_normal(b, s1.subrange(0, 0)), s1[0]));
    assert(merge_normal(b, s1) == b);
    assert(o.subrange(0, o.len() - 1) == s1);
    let b1 = step_normal(b, (k, Json::Array(v)));
    assert(merge_normal(b, o) == b1);
    lemma_find_key(b, k);
    let j: int = match find_key(b, k) {
        Some(i) => i,
        None => b.len() as int,
    };
    assert(b1[j] == (k, Json::Array(v)));
    assert forall|t: int| 0 <= t < j implies b1[t].0 != k by {
        assert(b1[t] == b[t]);
    }
    lemma_find_key(b1, k);
    assert(find_key(b1, k) == Some(j));
    let b2 = step_instruction(b1, o[0]);
    assert(b2 == b1.update(j, (b1[j].0, array_op_result(Json::Array(v), ArrayOp::Append, Json::Array(w)))));
    assert(merge_instructions(b1, none) == b1);
    assert(merge_instructions(b1, s1) == step_instruction(merge_instructions(b1, s1.subrange(0, 0)), s1[0]));
    assert(merge_instructions(b1, s1) == b2);
    let r = step_instruction(b2, o[1]);
    assert(r == b2);
    assert(merge_instructions(b1, o) == r);
    assert forall|t: int| 0 <= t < j implies r[t].0 != k by {
        assert(r[t] == b1[t]);
    }
    lemma_find_key(r, k);
    assert(r[j].0 == k);
    assert(find_key(r, k) == Some(j));
}

/// No key of the entries is an instruction key.
pub open spec fn no_instruction_keys(m: Seq<(Seq<char>, Json)>) -> bool {
    forall|i: int| 0 <= i < m.len() ==> !instruction_key(#[trigger] m[i].0)
}

/// Every instruction key of the entries names a target that is itself an ordinary key.
pub open spec fn targets_are_ordinary(o: Seq<(Seq<char>, Json)>) -> bool {
    forall|i: int| 0 <= i < o.len() ==> match #[trigger] instruction_of(o[i].0) {
        Some((t, _)) => !instruction_key(t),
        None => true,
    }
}

proof fn lemma_merge_normal_keeps_ordinary(m: Seq<(Seq<char>, Json)>, o: Seq<(Seq<char>, Json)>)
    requires
        no_instruction_keys(m),
    ensures
        no_instruction_keys(merge_normal(m, o)),
    decreases o.len(),
{
    if o.len() > 0 {
        let prev = merge_normal(m, o.subrange(0, o.len() - 1));
        lemma_merge_normal_keeps_ordinary(m, o.subrange(0, o.len() - 1));
        let e = o[o.len() - 1];
        lemma_find_key(prev, e.0);
        let next = step_normal(prev, e);
        assert forall|i: int| 0 <= i < next.len() implies !instruction_key(#[trigger] next[i].0) by {
            if !instruction_key(e.0) {
                match find_key(prev, e.0) {
                    Some(j) => { assert(next[i].0 == prev[i].0); },
                    None => { if i < prev.len() { assert(next[i] == prev[i]); } },
                }
            }
        }
    }
}

proof fn lemma_merge_instructions_keeps_ordinary(m: Seq<(Seq<char>, Json)>, o: Seq<(Seq<char>, Json)>)
    requires
        no_instruction_keys(m),
        targets_are_ordinary(o),
    ensures
        no_instruction_keys(merge_instructions(m, o)),
    decreases o.len(),
{
    if o.len() > 0 {
        let head = o.subrange(0, o.len() - 1);
        assert forall|i: int| 0 <= i < head.len() implies match #[trigger] instruction_of(head[i].0) {
            Some((t, _)) => !instruction_key(t),
            None => true,
        } by {
            assert(head[i] == o[i]);
        }
        lemma_merge_instructions_keeps_ordinary(m, head);
        let prev = merge_instructions(m, head);
        let e = o[o.len() - 1];
        let next = step_instruction(prev, e);
        assert(match instruction_of(o[o.len() - 1].0) {
            Some((t, _)) => !instruction_key(t),
            None => true,
        });
        assert forall|i: int| 0 <= i < next.len() implies !instruction_key(#[trigger] next[i].0) by {
            match instruction_of(e.0) {
                Some((t, op)) => {
                    lemma_find_key(prev, t);
                    match find_key(prev, t) {
                        Some(j) => { assert(next[i].0 == prev[i].0); },
                        None => { if i < prev.len() { assert(next[i] == prev[i]); } },
                    }
                },
                None => {},
            }
        }
    }
}

/// Instruction keys act during a merge and are not written: merging an object whose
/// instructions all name ordinary keys into an object without instruction keys leaves no
/// instruction key at the top level.
pub proof fn law_instruction_keys_not_written(b: Seq<(Seq<char>, Json)>, o: Seq<(Seq<char>, Json)>)
    requires
        no_instruction_keys(b),
        targets_are_ordinary(o),
    ensures
        merged(Json::Object(b), Json::Object(o)) is Object,
        no_instruction_keys(merged(Json::Object(b), Json::Object(o))->Object_0),
{
    lemma_merge_normal_keeps_ordinary(b, o);
    lemma_merge_instructions_keeps_ordinary(merge_normal(b, o), o);
}

/// `o` neither holds the key `k` nor has an instruction that targets it.
pub open spec fn leaves_key_alone(o: Seq<(Seq<char>, Json)>, k: Seq<char>) -> bool {
    forall|i: int| 0 <= i < o.len() ==> {
        &&& #[trigger] o[i].0 != k
        &&& match instruction_of(o[i].0) {
            Some((t, _)) => t != k,
            None => true,
        }
    }
}

proof fn lemma_normal_keeps_entry(m: Seq<(Seq<char>, Json)>, o: Seq<(Seq<char>, Json)>, k: Seq<char>, i: int)
    requires
        find_key(m, k) == Some(i),
        leaves_key_alone(o, k),
    ensures
        find_key(merge_normal(m, o), k) == Some(i),
        merge_normal(m, o)[i] == m[i],
    decreases o.len(),
{
    if o.len() > 0 {
        let head = o.subrange(0, o.len() - 1);
        assert forall|t: int| 0 <= t < head.len() implies {
            &&& #[trigger] head[t].0 != k
            &&& match instruction_of(head[t].0) {
                Some((x, _)) => x != k,
                None => true,
            }
        } by {
            assert(head[t] == o[t]);
        }
        lemma_normal_keeps_entry(m, head, k, i);
        let prev = merge_normal(m, head);
        let e = o[o.len() - 1];
        assert(e.0 != k);
        lemma_find_key(prev, k);
        lemma_find_key(prev, e.0);
        let next = step_normal(prev, e);
        if !instruction_key(e.0) {
            match find_key(prev, e.0) {
                Some(j) => {
                    assert(j != i);
                    assert forall|t: int| 0 <= t < next.len() implies next[t].0 == prev[t].0 by {}
                    lemma_same_keys_same_find(prev, next, k);
                },
                None => {
                    lemma_find_key_push(prev, (e.0, merged(Json::Object(Seq::empty()), e.1)), k);
                },
            }
        }
    }
}

proof fn lemma_instructions_keep_entry(m: Seq<(Seq<char>, Json)>, o: Seq<(Seq<char>, Json)>, k: Seq<char>, i: int)
    requires
        find_key(m, k) == Some(i),
        leaves_key_alone(o, k),
    ensures
        find_key(merge_instructions(m, o), k) == Some(i),
        merge_instructions(m, o)[i] == m[i],
    decreases o.len(),
{
    if o.len() > 0 {
        let head = o.subrange(0, o.len() - 1);
        assert forall|t: int| 0 <= t < head.len() implies {
            &&& #[trigger] head[t].0 != k
            &&& match instruction_of(head[t].0) {
                Some((x, _)) => x != k,
                None => true,
            }
        } by {
            assert(head[t] == o[t]);
        }
        lemma_instructions_keep_entry(m, head, k, i);
        let prev = merge_instructions(m, head);
        let e = o[o.len() - 1];
        assert(match instruction_of(o[o.len() - 1].0) {
            Some((x, _)) => x != k,
            None => true,
        });
        lemma_find_key(prev, k);
        let next = step_instruction(prev, e);
        match instruction_of(e.0) {
            Some((t, op)) => {
                lemma_find_key(prev, t);
                match find_key(prev, t) {
                    Some(j) => {
                        assert(j != i);
                        assert forall|x: int| 0 <= x < next.len() implies next[x].0 == prev[x].0 by {}
                        lemma_same_keys_same_find(prev, next, k);
                    },
                    None => {
                        lemma_find_key_push(prev, (t, array_op_result(Json::Array(Seq::empty()), op, e.1)), k);
                    },
                }
            },
            None => {},
        }
    }
}

proof fn lemma_same_keys_same_find(a: Seq<(Seq<char>, Json)>, b: Seq<(Seq<char>, Json)>, k: Seq<char>)
    requires
        a.len() == b.len(),
        forall|t: int| 0 <= t < a.len() ==> a[t].0 == b[t].0,
    ensures
        find_key(a, k) == find_key(b, k),
    decreases a.len(),
{
    if a.len() > 0 {
        lemma_same_keys_same_find(a.subrange(0, a.len() - 1), b.subrange(0, b.len() - 1), k);
    }
}

proof fn lemma_find_key_push(m: Seq<(Seq<char>, Json)>, e: (Seq<char>, Json), k: Seq<char>)
    requires
        find_key(m, k) is Some,
    ensures
        find_key(m.push(e), k) == find_key(m, k),
{
    assert(m.push(e).subrange(0, m.len() as int) =~= m);
}

/// A key of the earlier document that the later one neither sets nor targets with an
/// instruction keeps its place and its value.
pub proof fn law_untouched_key_kept(b: Seq<(Seq<char>, Json)>, o: Seq<(Seq<char>, Json)>, k: Seq<char>)
    requires
        find_key(b, k) is Some,
        leaves_key_alone(o, k),
    ensures
        merged(Json::Object(b), Json::Object(o)) is Object,
        find_key(merged(Json::Object(b), Json::Object(o))->Object_0, k) == find_key(b, k),
        merged(Json::Object(b), Json::Object(o))->Object_0[find_key(b, k)->0] == b[find_key(b, k)->0],
{
    let i = find_key(b, k)->0;
    lemma_normal_keeps_entry(b, o, k, i);
    lemma_instructions_keep_entry(merge_normal(b, o), o, k, i);
}

/// The runtime configuration never carries the controller address or the secret at its
/// top level, whatever the documents hold.
pub proof fn law_runtime_config_has_no_controller_keys(layers: Seq<Json>, clash: Json, fixed: Json)
    ensures
        runtime_config(layers, clash, fixed) is Object ==> forall|i: int|
            0 <= i < runtime_config(layers, clash, fixed)->Object_0.len() ==> {
                &&& #[trigger] runtime_config(layers, clash, fixed)->Object_0[i].0 != "external-controller"@
                &&& runtime_config(layers, clash, fixed)->Object_0[i].0 != "secret"@
            },
{
    let j = merged(merged(merged_all(empty_object(), layers), clash), fixed);
    match j {
        Json::Object(m) => {
            let pred = |e: (Seq<char>, Json)| !dropped_after_merge(e);
            let f = m.filter(pred);
            assert forall|i: int| 0 <= i < f.len() implies pred(#[trigger] f[i]) by {
                m.lemma_filter_pred(pred, i);
            }
        },
        _ => {},
    }
}

// ---------------------------------------------------------------------------
// Instruction keys at every depth

/// A document in which no object reached through objects holds an instruction key (the
/// items of arrays are data and are never merged).
pub open spec fn clean(v: Json) -> bool
    decreases v, 1nat,
{
    match v {
        Json::Object(m) => clean_entries(m),
        _ => true,
    }
}

/// Every entry has an ordinary key and a clean value.
pub open spec fn clean_entries(m: Seq<(Seq<char>, Json)>) -> bool
    decreases m, 0nat,
{
    if m.len() == 0 {
        true
    } else {
        clean_entries(m.subrange(0, m.len() - 1)) && !instruction_key(m[m.len() - 1].0) && clean(m[m.len() - 1].1)
    }
}

/// Every instruction of the document, in any object reached through objects, names an
/// ordinary key as its target (`a::^::$` would name `a::^`).
pub open spec fn targets_ordinary(v: Json) -> bool
    decreases v, 1nat,
{
    match v {
        Json::Object(m) => targets_ordinary_entries(m),
        _ => true,
    }
}

/// Every entry names an ordinary target if it is an instruction, and its value does too.
pub open spec fn targets_ordinary_entries(m: Seq<(Seq<char>, Json)>) -> bool
    decreases m, 0nat,
{
    if m.len() == 0 {
        true
    } else {
        &&& targets_ordinary_entries(m.subrange(0, m.len() - 1))
        &&& match instruction_of(m[m.len() - 1].0) {
            Some((t, _)) => !instruction_key(t),
            None => true,
        }
        &&& targets_ordinary(m[m.len() - 1].1)
    }
}

/// Every entry, one by one, has an ordinary key and a clean value.
pub open spec fn entries_all_clean(m: Seq<(Seq<char>, Json)>) -> bool {
    forall|i: int| 0 <= i < m.len() ==> !instruction_key(#[trigger] m[i].0) && clean(m[i].1)
}

/// Every entry, one by one, names an ordinary target and has a value that does too.
pub open spec fn entries_all_target_ordinary(m: Seq<(Seq<char>, Json)>) -> bool {
    forall|i: int| 0 <= i < m.len() ==> {
        &&& match #[trigger] instruction_of(m[i].0) {
            Some((t, _)) => !instruction_key(t),
            None => true,
        }
        &&& targets_ordinary(m[i].1)
    }
}

proof fn lemma_clean_entries(m: Seq<(Seq<char>, Json)>)
    ensures
        clean_entries(m) == entries_all_clean(m),
    decreases m.len(),
{
    if m.len() > 0 {
        let h = m.subrange(0, m.len() - 1);
        lemma_clean_entries(h);
        if entries_all_clean(m) {
            assert forall|i: int| 0 <= i < h.len() implies !instruction_key(#[trigger] h[i].0) && clean(h[i].1) by {
                assert(h[i] == m[i]);
                assert(!instruction_key(m[i].0));
            }
        }
        if clean_entries(m) {
            assert forall|i: int| 0 <= i < m.len() implies !instruction_key(#[trigger] m[i].0) && clean(m[i].1) by {
                if i < m.len() - 1 { assert(h[i] == m[i]); assert(!instruction_key(h[i].0)); }
            }
        }
    }
}

proof fn lemma_targets_entries(m: Seq<(Seq<char>, Json)>)
    ensures
        targets_ordinary_entries(m) == entries_all_target_ordinary(m),
    decreases m.len(),
{
    if m.len() > 0 {
        let h = m.subrange(0, m.len() - 1);
        lemma_targets_entries(h);
        if entries_all_target_ordinary(m) {
            assert forall|i: int| 0 <= i < h.len() implies {
                &&& match #[trigger] instruction_of(h[i].0) {
                    Some((t, _)) => !instruction_key(t),
                    None => true,
                }
                &&& targets_ordinary(h[i].1)
            } by {
                assert(h[i] == m[i]);
                assert(match instruction_of(m[i].0) {
                    Some((t, _)) => !instruction_key(t),
                    None => true,
                });
            }
            assert(match instruction_of(m[m.len() - 1].0) {
                Some((t, _)) => !instruction_key(t),
                None => true,
            });
        }
        if targets_ordinary_entries(m) {
            assert forall|i: int| 0 <= i < m.len() implies {
                &&& match #[trigger] instruction_of(m[i].0) {
                    Some((t, _)) => !instruction_key(t),
                    None => true,
                }
                &&& targets_ordinary(m[i].1)
            } by {
                if i < m.len() - 1 {
                    assert(h[i] == m[i]);
                    assert(match instruction_of(h[i].0) {
                        Some((t, _)) => !instruction_key(t),
                        None => true,
                    });
                }
            }
        }
    }
}

proof fn lemma_normal_clean(bm: Seq<(Seq<char>, Json)>, om: Seq<(Seq<char>, Json)>)
    requires
        entries_all_clean(bm),
        forall|i: int| 0 <= i < om.len() ==> targets_ordinary(#[trigger] om[i].1),
    ensures
        entries_all_clean(merge_normal(bm, om)),
    decreases om, 1nat,
{
    if om.len() > 0 {
        let head = om.subrange(0, om.len() - 1);
        assert forall|i: int| 0 <= i < head.len() implies targets_ordinary(#[trigger] head[i].1) by { assert(head[i] == om[i]); }
        lemma_normal_clean(bm, head);
        let prev = merge_normal(bm, head);
        let e = om[om.len() - 1];
        assert(targets_ordinary(e.1));
        let next = step_normal(prev, e);
        if !instruction_key(e.0) {
            lemma_find_key(prev, e.0);
            match find_key(prev, e.0) {
                Some(i) => {
                    lemma_merged_clean(prev[i].1, e.1);
                    assert forall|t: int| 0 <= t < next.len() implies !instruction_key(#[trigger] next[t].0) && clean(next[t].1) by {
                        if t != i { assert(next[t] == prev[t]); }
                    }
                },
                None => {
                    lemma_clean_entries(Seq::<(Seq<char>, Json)>::empty());
                    lemma_merged_clean(Json::Object(Seq::empty()), e.1);
                    assert forall|t: int| 0 <= t < next.len() implies !instruction_key(#[trigger] next[t].0) && clean(next[t].1) by {
                        if t < prev.len() { assert(next[t] == prev[t]); }
                    }
                },
            }
        }
    }
}

proof fn lemma_instructions_clean(m: Seq<(Seq<char>, Json)>, om: Seq<(Seq<char>, Json)>)
    requires
        entries_all_clean(m),
        forall|i: int| 0 <= i < om.len() ==> match #[trigger] instruction_of(om[i].0) {
            Some((t, _)) => !instruction_key(t),
            None => true,
        },
    ensures
        entries_all_clean(merge_instructions(m, om)),
    decreases om.len(),
{
    if om.len() > 0 {
        let head = om.subrange(0, om.len() - 1);
        assert forall|i: int| 0 <= i < head.len() implies match #[trigger] instruction_of(head[i].0) {
            Some((t, _)) => !instruction_key(t),
            None => true,
        } by {
            assert(head[i] == om[i]);
        }
        lemma_instructions_clean(m, head);
        let prev = merge_instructions(m, head);
        let e = om[om.len() - 1];
        assert(match instruction_of(om[om.len() - 1].0) {
            Some((t, _)) => !instruction_key(t),
            None => true,
        });
        let next = step_instruction(prev, e);
        match instruction_of(e.0) {
            Some((t, op)) => {
                lemma_find_key(prev, t);
                match find_key(prev, t) {
                    Some(j) => {
                        assert forall|x: int| 0 <= x < next.len() implies !instruction_key(#[trigger] next[x].0) && clean(next[x].1) by {
                            if x != j { assert(next[x] == prev[x]); }
                        }
                    },
                    None => {
                        assert forall|x: int| 0 <= x < next.len() implies !instruction_key(#[trigger] next[x].0) && clean(next[x].1) by {
                            if x < prev.len() { assert(next[x] == prev[x]); }
                        }
                    },
                }
            },
            None => {},
        }
    }
}

proof fn lemma_merged_clean(base: Json, other: Json)
    requires
        clean(base),
        targets_ordinary(other),
    ensures
        clean(merged(base, other)),
    decreases other, 2nat,
{
    match other {
        Json::Object(om) => {
            let bm = match base {
                Json::Object(b) => b,
                _ => Seq::<(Seq<char>, Json)>::empty(),
            };
            lemma_clean_entries(bm);
            lemma_targets_entries(om);
            assert forall|i: int| 0 <= i < om.len() implies targets_ordinary(#[trigger] om[i].1) by {
                assert(match instruction_of(om[i].0) {
                    Some((t, _)) => !instruction_key(t),
                    None => true,
                });
            }
            lemma_normal_clean(bm, om);
            let m1 = merge_normal(bm, om);
            lemma_instructions_clean(m1, om);
            lemma_clean_entries(merge_instructions(m1, om));
        },
        _ => {},
    }
}

/// Instruction keys act during a merge and are never written, at any depth: merging any
/// document whose instructions name ordinary keys over one without instruction keys
/// leaves none, in any object reached through objects.
pub proof fn law_instruction_keys_never_written(base: Json, other: Json)
    requires
        clean(base),
        targets_ordinary(other),
    ensures
        clean(merged(base, other)),
{
    lemma_merged_clean(base, other);
}

proof fn lemma_merged_all_clean(acc: Json, docs: Seq<Json>)
    requires
        clean(acc),
        forall|i: int| 0 <= i < docs.len() ==> targets_ordinary(#[trigger] docs[i]),
    ensures
        clean(merged_all(acc, docs)),
    decreases docs.len(),
{
    if docs.len() > 0 {
        let h = docs.drop_last();
        assert forall|i: int| 0 <= i < h.len() implies targets_ordinary(#[trigger] h[i]) by { assert(h[i] == docs[i]); }
        lemma_merged_all_clean(acc, h);
        assert(targets_ordinary(docs[docs.len() - 1]));
        lemma_merged_clean(merged_all(acc, h), docs.last());
    }
}

/// The written configuration carries no instruction key in any object reached through
/// objects, whatever the layers (configurations and overrides in merge order, the core
/// settings, the fixed document), as long as every instruction names an ordinary key.
pub proof fn law_runtime_config_free_of_instructions(layers: Seq<Json>, clash: Json, fixed: Json)
    requires
        forall|i: int| 0 <= i < layers.len() ==> targets_ordinary(#[trigger] layers[i]),
        targets_ordinary(clash),
        targets_ordinary(fixed),
    ensures
        clean(runtime_config(layers, clash, fixed)),
{
    lemma_clean_entries(Seq::<(Seq<char>, Json)>::empty());
    lemma_merged_all_clean(empty_object(), layers);
    let a = merged_all(empty_object(), layers);
    lemma_merged_clean(a, clash);
    lemma_merged_clean(merged(a, clash), fixed);
    let j = merged(merged(a, clash), fixed);
    match j {
        Json::Object(m) => {
            let pred = |e: (Seq<char>, Json)| !dropped_after_merge(e);
            let f = m.filter(pred);
            lemma_clean_entries(m);
            assert forall|i: int| 0 <= i < f.len() implies !instruction_key(#[trigger] f[i].0) && clean(f[i].1) by {
                assert(f.contains(f[i]));
                m.lemma_filter_contains_rev(pred, f[i]);
                let k = choose|k: int| 0 <= k < m.len() && m[k] == f[i];
                assert(m[k] == f[i]);
            }
            lemma_clean_entries(f);
        },
        _ => {},
    }
}

} // verus!
