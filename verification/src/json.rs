//! Reading, comparing and writing JSON values.
//!
//! A server's answer, a tool's published schema and the arguments a model wrote
//! are all JSON. `serde_json` reads them; from there on they are values of
//! [`Json`], whose meaning is [`JsonV`].

use vstd::prelude::*;

use crate::decimal;
use crate::decimal::{capped_value, run_end};
use crate::text;
use crate::text::{join, number, own, same, to_chars};
use crate::value;
use crate::value::{Json, JsonV};

verus! {

broadcast use crate::value::group_json_views;

// ---------------------------------------------------------------------------
// Looking inside
// ---------------------------------------------------------------------------

/// The position of the first member under `key`, or `-1`.
pub open spec fn key_at(m: Seq<(Seq<char>, JsonV)>, key: Seq<char>) -> int
    decreases m.len(),
{
    if m.len() == 0 {
        -1
    } else if m[0].0 == key {
        0
    } else {
        let rest = key_at(m.drop_first(), key);
        if rest < 0 {
            -1
        } else {
            rest + 1
        }
    }
}

/// The value an object holds under `key`.
pub open spec fn field(v: JsonV, key: Seq<char>) -> Option<JsonV> {
    match v {
        JsonV::Object(m) => {
            let i = key_at(m, key);
            if 0 <= i < m.len() {
                Some(m[i].1)
            } else {
                None
            }
        },
        _ => None,
    }
}

/// The text of a value that is a text.
pub open spec fn text_of(v: JsonV) -> Option<Seq<char>> {
    match v {
        JsonV::Text(s) => Some(s),
        _ => None,
    }
}

/// The items of a value that is a list.
pub open spec fn list_of(v: JsonV) -> Option<Seq<JsonV>> {
    match v {
        JsonV::List(a) => Some(a),
        _ => None,
    }
}

/// The text an object holds under `key`.
pub open spec fn text_field(v: JsonV, key: Seq<char>) -> Option<Seq<char>> {
    match field(v, key) {
        Some(x) => text_of(x),
        None => None,
    }
}

/// The list an object holds under `key`.
pub open spec fn list_field(v: JsonV, key: Seq<char>) -> Option<Seq<JsonV>> {
    match field(v, key) {
        Some(x) => list_of(x),
        None => None,
    }
}

pub proof fn lemma_key_at(m: Seq<(Seq<char>, JsonV)>, key: Seq<char>, i: int)
    requires
        0 <= i < m.len(),
        m[i].0 == key,
        forall|j: int| 0 <= j < i ==> (#[trigger] m[j]).0 != key,
    ensures
        key_at(m, key) == i,
    decreases m.len(),
{
    if i > 0 {
        assert(m[0].0 != key);
        let t = m.drop_first();
        assert forall|j: int| 0 <= j < i - 1 implies (#[trigger] t[j]).0 != key by {
            assert(t[j] == m[j + 1]);
        }
        lemma_key_at(t, key, i - 1);
    }
}

pub proof fn lemma_key_absent(m: Seq<(Seq<char>, JsonV)>, key: Seq<char>)
    requires
        forall|j: int| 0 <= j < m.len() ==> (#[trigger] m[j]).0 != key,
    ensures
        key_at(m, key) == -1,
    decreases m.len(),
{
    if m.len() > 0 {
        assert(m[0].0 != key);
        let t = m.drop_first();
        assert forall|j: int| 0 <= j < t.len() implies (#[trigger] t[j]).0 != key by {
            assert(t[j] == m[j + 1]);
        }
        lemma_key_absent(t, key);
    }
}

pub proof fn lemma_key_found(m: Seq<(Seq<char>, JsonV)>, key: Seq<char>)
    ensures
        -1 <= key_at(m, key) < m.len(),
        key_at(m, key) >= 0 ==> m[key_at(m, key)].0 == key,
        forall|j: int| 0 <= j < key_at(m, key) ==> (#[trigger] m[j]).0 != key,
        key_at(m, key) < 0 ==> forall|j: int| 0 <= j < m.len() ==> (#[trigger] m[j]).0 != key,
    decreases m.len(),
{
    if m.len() > 0 && m[0].0 != key {
        let t = m.drop_first();
        lemma_key_found(t, key);
        assert forall|j: int| 0 <= j < m.len() && (key_at(t, key) < 0 || j <= key_at(t, key)) implies (
        #[trigger] m[j]).0 != key by {
            if j > 0 {
                assert(m[j] == t[j - 1]);
            }
        }
        if key_at(t, key) >= 0 {
            assert(m[key_at(t, key) + 1] == t[key_at(t, key)]);
        }
    }
}

/// The position of the first member under `key`.
pub(crate) fn position(m: &Vec<(String, Json)>, key: &str) -> (r: Option<usize>)
    ensures
        match r {
            Some(i) => i < m@.len() && i == key_at(value::members(m@), key@),
            None => key_at(value::members(m@), key@) == -1,
        },
{
    let ghost all = value::members(m@);
    for i in 0..m.len()
        invariant
            all == value::members(m@),
            forall|j: int| 0 <= j < i ==> (#[trigger] all[j]).0 != key@,
    {
        assert(all[i as int].0 == m@[i as int].0@);
        if same(&m[i].0, key) {
            proof {
                lemma_key_at(all, key@, i as int);
            }
            return Some(i);
        }
    }
    proof {
        lemma_key_absent(all, key@);
    }
    None
}

impl Json {
    /// What this object holds under `key`.
    pub fn get(&self, key: &str) -> (r: Option<&Json>)
        ensures
            match r {
                Some(v) => field(self@, key@) == Some(v@),
                None => field(self@, key@) is None,
            },
    {
        match self {
            Json::Object(m) => match position(m, key) {
                Some(i) => {
                    assert(value::members(m@)[i as int].1 == m@[i as int].1@);
                    Some(&m[i].1)
                },
                None => None,
            },
            _ => None,
        }
    }

    /// The text of a value that is a text.
    pub fn as_text(&self) -> (r: Option<&str>)
        ensures
            match r {
                Some(s) => text_of(self@) == Some(s@),
                None => text_of(self@) is None,
            },
    {
        match self {
            Json::Text(s) => Some(s.as_str()),
            _ => None,
        }
    }

    /// The items of a value that is a list.
    pub fn as_list(&self) -> (r: Option<&Vec<Json>>)
        ensures
            match r {
                Some(v) => self@ == JsonV::List(value::items(v@)),
                None => list_of(self@) is None,
            },
    {
        match self {
            Json::List(v) => Some(v),
            _ => None,
        }
    }

    /// The text this object holds under `key`.
    pub(crate) fn get_text(&self, key: &str) -> (r: Option<&str>)
        ensures
            match r {
                Some(s) => text_field(self@, key@) == Some(s@),
                None => text_field(self@, key@) is None,
            },
    {
        match self.get(key) {
            Some(v) => v.as_text(),
            None => None,
        }
    }

    /// The list this object holds under `key`.
    pub(crate) fn get_list(&self, key: &str) -> (r: Option<&Vec<Json>>)
        ensures
            match r {
                Some(v) => list_field(self@, key@) == Some(value::items(v@)),
                None => list_field(self@, key@) is None,
            },
    {
        match self.get(key) {
            Some(v) => v.as_list(),
            None => None,
        }
    }

    /// A value of its own that stands for the same.
    pub fn copy(&self) -> (r: Json)
        ensures
            r@ == self@,
        decreases self,
    {
        match self {
            Json::Null => Json::Null,
            Json::Bool(b) => Json::Bool(*b),
            Json::Number(s) => Json::Number(s.clone()),
            Json::Text(s) => Json::Text(s.clone()),
            Json::List(v) => {
                let mut out: Vec<Json> = Vec::new();
                for i in 0..v.len()
                    invariant
                        self == Json::List(*v),
                        out@.len() == i,
                        forall|k: int| 0 <= k < i ==> out@[k]@ == v@[k]@,
                {
                    assert(decreases_to!(*self => self->List_0));
                    out.push(v[i].copy());
                }
                assert(value::items(out@) =~= value::items(v@));
                Json::List(out)
            },
            Json::Object(m) => {
                let mut out: Vec<(String, Json)> = Vec::new();
                for i in 0..m.len()
                    invariant
                        self == Json::Object(*m),
                        out@.len() == i,
                        forall|k: int|
                            0 <= k < i ==> out@[k].0@ == m@[k].0@ && out@[k].1@ == m@[k].1@,
                {
                    assert(decreases_to!(*self => self->Object_0));
                    out.push((m[i].0.clone(), m[i].1.copy()));
                }
                assert(value::members(out@) =~= value::members(m@));
                Json::Object(out)
            },
        }
    }
}

// ---------------------------------------------------------------------------
// Numbers
// ---------------------------------------------------------------------------

/// The parts of a number written the way JSON writes numbers: a sign, the
/// digits before the point, those after it, and the power of ten they are
/// multiplied by.
pub struct NumberParts {
    pub digits: Seq<char>,
    pub fraction: nat,
    pub exponent: int,
}

/// The power of ten written at position `d` of a number's text, or zero.
pub open spec fn written_exponent(s: Seq<char>, d: int) -> int {
    if d < s.len() && (s[d] == 'e' || s[d] == 'E') {
        let negative = d + 1 < s.len() && s[d + 1] == '-';
        let e = if d + 1 < s.len() && (s[d + 1] == '-' || s[d + 1] == '+') {
            d + 2
        } else {
            d + 1
        };
        let n = decimal::digits_value(s.subrange(e, e + decimal::digit_run(s, e))) as int;
        if negative {
            -n
        } else {
            n
        }
    } else {
        0
    }
}

/// A number's text taken apart.
pub open spec fn number_parts(s: Seq<char>) -> NumberParts {
    let a = if s.len() > 0 && s[0] == '-' {
        1int
    } else {
        0int
    };
    let b = a + decimal::digit_run(s, a);
    let c = if b < s.len() && s[b] == '.' {
        b + 1
    } else {
        b
    };
    let d = c + decimal::digit_run(s, c);
    NumberParts {
        digits: s.subrange(a, b) + s.subrange(c, d),
        fraction: (d - c) as nat,
        exponent: written_exponent(s, d),
    }
}

/// Whether a number has no fractional part: every digit that the exponent
/// leaves behind the point is a zero.
pub open spec fn is_whole(s: Seq<char>) -> bool {
    let p = number_parts(s);
    let behind = p.fraction - p.exponent;
    forall|i: int|
        p.digits.len() - behind <= i && 0 <= i < p.digits.len() ==> #[trigger] p.digits[i] == '0'
}

/// Whether a number's text is that of a floating-point zero, of either sign.
pub open spec fn is_float_zero(s: Seq<char>) -> bool {
    s == "0.0"@ || s == "-0.0"@
}

/// Whether two numbers are equal: the same text, or a zero of either sign.
pub open spec fn same_number(a: Seq<char>, b: Seq<char>) -> bool {
    a == b || (is_float_zero(a) && is_float_zero(b))
}

/// [`written_exponent`], held at a cap on either side.
fn read_power(v: &Vec<char>, d: usize) -> (r: i128)
    requires
        d <= v@.len(),
    ensures
        r == written_exponent(v@, d as int) || (r == decimal::EXPONENT_CAP && written_exponent(
            v@,
            d as int,
        ) >= r) || (r == -decimal::EXPONENT_CAP && written_exponent(v@, d as int) <= r),
        -decimal::EXPONENT_CAP <= r <= decimal::EXPONENT_CAP,
{
    let n = v.len();
    if d >= n || (v[d] != 'e' && v[d] != 'E') {
        return 0;
    }
    let negative = d + 1 < n && v[d + 1] == '-';
    let e = if d + 1 < n && (v[d + 1] == '-' || v[d + 1] == '+') {
        d + 2
    } else {
        d + 1
    };
    let end = run_end(v, e);
    proof {
        decimal::lemma_digit_run(v@, e as int);
    }
    let value: i128 = capped_value(v, e, end) as i128;
    if negative {
        -value
    } else {
        value
    }
}

/// Whether only zeros stand among the digits of `v` from `lo` up to `hi`,
/// counted from `at`, that have reached `clear`.
fn zeros(v: &Vec<char>, lo: usize, hi: usize, at: i128, clear: i128) -> (r: bool)
    requires
        lo <= hi <= v@.len(),
        0 <= at <= usize::MAX,
    ensures
        r == forall|i: int|
            lo <= i < hi && clear <= at + (i - lo) ==> #[trigger] v@[i] == '0',
{
    for i in lo..hi
        invariant
            lo <= i <= hi <= v@.len(),
            0 <= at <= usize::MAX,
            forall|k: int| lo <= k < i && clear <= at + (k - lo) ==> #[trigger] v@[k] == '0',
    {
        let place: i128 = at + (i - lo) as i128;
        if clear <= place && v[i] != '0' {
            assert(v@[i as int] != '0');
            return false;
        }
    }
    true
}

/// [`is_whole`].
#[verifier::rlimit(60)]
fn whole(s: &str) -> (r: bool)
    ensures
        r == is_whole(s@),
{
    let v = to_chars(s);
    let n = v.len();
    let a: usize = if n > 0 && v[0] == '-' {
        1
    } else {
        0
    };
    let b = run_end(&v, a);
    let c = if b < n && v[b] == '.' {
        b + 1
    } else {
        b
    };
    let d = run_end(&v, c);
    let exponent = read_power(&v, d);
    // The first digit the exponent leaves behind the point, counted over the
    // digits before and after it together.
    let clear: i128 = (b - a) as i128 + exponent;
    let front = zeros(&v, a, b, 0, clear);
    let back = zeros(&v, c, d, (b - a) as i128, clear);
    proof {
        let p = number_parts(s@);
        let exact = (b - a) + p.exponent;
        assert(p.digits.len() == (b - a) + (d - c));
        assert(exact == p.digits.len() - (p.fraction - p.exponent));
        assert(clear == exact || (clear >= p.digits.len() && exact >= p.digits.len()) || (clear
            <= 0 && exact <= 0));
        if front && back {
            assert forall|i: int|
                p.digits.len() - (p.fraction - p.exponent) <= i && 0 <= i
                    < p.digits.len() implies #[trigger] p.digits[i] == '0' by {
                if i < b - a {
                    assert(p.digits[i] == v@[a + i]);
                } else {
                    assert(p.digits[i] == v@[c + (i - (b - a))]);
                }
            }
        }
        if is_whole(s@) {
            assert forall|i: int| a <= i < b && clear <= 0 + (i - a) implies #[trigger] v@[i]
                == '0' by {
                assert(p.digits[i - a] == v@[i]);
            }
            assert forall|i: int|
                c <= i < d && clear <= (b - a) + (i - c) implies #[trigger] v@[i] == '0' by {
                assert(p.digits[(b - a) + (i - c)] == v@[i]);
            }
        }
    }
    front && back
}

// ---------------------------------------------------------------------------
// Equality
// ---------------------------------------------------------------------------

/// Whether two values are equal.
pub open spec fn same_json(a: JsonV, b: JsonV) -> bool
    decreases a,
{
    match (a, b) {
        (JsonV::Null, JsonV::Null) => true,
        (JsonV::Bool(x), JsonV::Bool(y)) => x == y,
        (JsonV::Number(x), JsonV::Number(y)) => same_number(x, y),
        (JsonV::Text(x), JsonV::Text(y)) => x == y,
        (JsonV::List(x), JsonV::List(y)) => same_items(x, y),
        (JsonV::Object(x), JsonV::Object(y)) => same_members(x, y),
        _ => false,
    }
}

/// Whether two lists are equal, item by item.
pub open spec fn same_items(a: Seq<JsonV>, b: Seq<JsonV>) -> bool
    decreases a,
{
    if a.len() == 0 || b.len() == 0 {
        a.len() == b.len()
    } else {
        same_items(a.drop_last(), b.drop_last()) && same_json(a.last(), b.last())
    }
}

/// Whether two objects are equal, member by member.
pub open spec fn same_members(a: Seq<(Seq<char>, JsonV)>, b: Seq<(Seq<char>, JsonV)>) -> bool
    decreases a,
{
    if a.len() == 0 || b.len() == 0 {
        a.len() == b.len()
    } else {
        same_members(a.drop_last(), b.drop_last()) && a.last().0 == b.last().0 && same_json(
            a.last().1,
            b.last().1,
        )
    }
}

proof fn lemma_same_items_len(a: Seq<JsonV>, b: Seq<JsonV>)
    ensures
        same_items(a, b) ==> a.len() == b.len(),
    decreases a,
{
    if a.len() > 0 && b.len() > 0 {
        lemma_same_items_len(a.drop_last(), b.drop_last());
    }
}

proof fn lemma_same_items_fail(a: Seq<JsonV>, b: Seq<JsonV>, i: int)
    requires
        a.len() == b.len(),
        0 <= i <= a.len(),
        !same_items(a.take(i), b.take(i)),
    ensures
        !same_items(a, b),
    decreases a.len() - i,
{
    if i < a.len() {
        assert(a.take(i + 1).drop_last() == a.take(i));
        assert(b.take(i + 1).drop_last() == b.take(i));
        lemma_same_items_fail(a, b, i + 1);
    } else {
        assert(a.take(i) == a);
        assert(b.take(i) == b);
    }
}

proof fn lemma_same_members_len(a: Seq<(Seq<char>, JsonV)>, b: Seq<(Seq<char>, JsonV)>)
    ensures
        same_members(a, b) ==> a.len() == b.len(),
    decreases a,
{
    if a.len() > 0 && b.len() > 0 {
        lemma_same_members_len(a.drop_last(), b.drop_last());
    }
}

proof fn lemma_same_members_fail(a: Seq<(Seq<char>, JsonV)>, b: Seq<(Seq<char>, JsonV)>, i: int)
    requires
        a.len() == b.len(),
        0 <= i <= a.len(),
        !same_members(a.take(i), b.take(i)),
    ensures
        !same_members(a, b),
    decreases a.len() - i,
{
    if i < a.len() {
        assert(a.take(i + 1).drop_last() == a.take(i));
        assert(b.take(i + 1).drop_last() == b.take(i));
        lemma_same_members_fail(a, b, i + 1);
    } else {
        assert(a.take(i) == a);
        assert(b.take(i) == b);
    }
}

fn numbers_agree(a: &str, b: &str) -> (r: bool)
    ensures
        r == same_number(a@, b@),
{
    same(a, b) || ((same(a, "0.0") || same(a, "-0.0")) && (same(b, "0.0") || same(b, "-0.0")))
}

impl Json {
    /// Whether two values are equal.
    pub fn equals(&self, other: &Json) -> (r: bool)
        ensures
            r == same_json(self@, other@),
        decreases self,
    {
        match (self, other) {
            (Json::Null, Json::Null) => true,
            (Json::Bool(x), Json::Bool(y)) => *x == *y,
            (Json::Number(x), Json::Number(y)) => numbers_agree(x, y),
            (Json::Text(x), Json::Text(y)) => same(x, y),
            (Json::List(x), Json::List(y)) => {
                let ghost a = value::items(x@);
                let ghost b = value::items(y@);
                if x.len() != y.len() {
                    proof {
                        lemma_same_items_len(a, b);
                    }
                    return false;
                }
                for i in 0..x.len()
                    invariant
                        self == Json::List(*x),
                        other == Json::List(*y),
                        a == value::items(x@),
                        b == value::items(y@),
                        x@.len() == y@.len(),
                        same_items(a.take(i as int), b.take(i as int)),
                {
                    assert(decreases_to!(*self => self->List_0));
                    proof {
                        assert(a.take(i + 1).drop_last() == a.take(i as int));
                        assert(b.take(i + 1).drop_last() == b.take(i as int));
                        assert(a[i as int] == x@[i as int]@);
                        assert(b[i as int] == y@[i as int]@);
                    }
                    if !x[i].equals(&y[i]) {
                        proof {
                            lemma_same_items_fail(a, b, i + 1);
                        }
                        return false;
                    }
                }
                assert(a.take(a.len() as int) == a);
                assert(b.take(b.len() as int) == b);
                true
            },
            (Json::Object(x), Json::Object(y)) => {
                let ghost a = value::members(x@);
                let ghost b = value::members(y@);
                if x.len() != y.len() {
                    proof {
                        lemma_same_members_len(a, b);
                    }
                    return false;
                }
                for i in 0..x.len()
                    invariant
                        self == Json::Object(*x),
                        other == Json::Object(*y),
                        a == value::members(x@),
                        b == value::members(y@),
                        x@.len() == y@.len(),
                        same_members(a.take(i as int), b.take(i as int)),
                {
                    assert(decreases_to!(*self => self->Object_0));
                    proof {
                        assert(a.take(i + 1).drop_last() == a.take(i as int));
                        assert(b.take(i + 1).drop_last() == b.take(i as int));
                        assert(a[i as int] == (x@[i as int].0@, x@[i as int].1@));
                        assert(b[i as int] == (y@[i as int].0@, y@[i as int].1@));
                    }
                    if !same(&x[i].0, &y[i].0) || !x[i].1.equals(&y[i].1) {
                        proof {
                            lemma_same_members_fail(a, b, i + 1);
                        }
                        return false;
                    }
                }
                assert(a.take(a.len() as int) == a);
                assert(b.take(b.len() as int) == b);
                true
            },
            _ => false,
        }
    }

    /// Whether this is a number without a fractional part.
    pub fn is_whole_number(&self) -> (r: bool)
        ensures
            r == (self@ is Number && is_whole(self@->Number_0)),
    {
        match self {
            Json::Number(s) => whole(s),
            _ => false,
        }
    }
}

impl Clone for Json {
    fn clone(&self) -> (r: Json)
        ensures
            r@ == self@,
    {
        self.copy()
    }
}

impl PartialEq for Json {
    fn eq(&self, other: &Json) -> (r: bool) {
        self.equals(other)
    }
}

impl vstd::std_specs::cmp::PartialEqSpecImpl for Json {
    open spec fn obeys_eq_spec() -> bool {
        true
    }

    open spec fn eq_spec(&self, other: &Json) -> bool {
        same_json(self@, other@)
    }
}

// ---------------------------------------------------------------------------
// Writing
// ---------------------------------------------------------------------------

/// A hexadecimal digit, in lower case.
pub open spec fn hex_digit(n: int) -> char {
    if n < 10 {
        ('0' as int + n) as char
    } else {
        ('a' as int + n - 10) as char
    }
}

/// One character as it stands inside a JSON text.
pub open spec fn escaped_char(c: char) -> Seq<char> {
    if c == '"' {
        seq!['\\', '"']
    } else if c == '\\' {
        seq!['\\', '\\']
    } else if c == '\n' {
        seq!['\\', 'n']
    } else if c == '\r' {
        seq!['\\', 'r']
    } else if c == '\t' {
        seq!['\\', 't']
    } else if c as int == 8 {
        seq!['\\', 'b']
    } else if c as int == 12 {
        seq!['\\', 'f']
    } else if (c as int) < 32 {
        seq!['\\', 'u', '0', '0', hex_digit(c as int / 16), hex_digit(c as int % 16)]
    } else {
        seq![c]
    }
}

/// Characters as they stand inside a JSON text.
pub open spec fn escaped(s: Seq<char>) -> Seq<char>
    decreases s.len(),
{
    if s.len() == 0 {
        Seq::empty()
    } else {
        escaped(s.drop_last()) + escaped_char(s.last())
    }
}

/// A text the way JSON writes it.
pub open spec fn quoted(s: Seq<char>) -> Seq<char> {
    seq!['"'] + escaped(s) + seq!['"']
}

/// `serde_json::to_string` of a string: the text in double quotes, with the
/// quote, the backslash and the control characters below U+0020 escaped and
/// every other character as it is.
#[verifier::external_body]
fn quote(s: &str) -> (r: String)
    ensures
        r@ == quoted(s@),
{
    serde_json::to_string(s).unwrap_or_default()
}

/// A value written without blanks.
pub open spec fn compact(v: JsonV) -> Seq<char>
    decreases v,
{
    match v {
        JsonV::Null => "null"@,
        JsonV::Bool(b) => if b {
            "true"@
        } else {
            "false"@
        },
        JsonV::Number(s) => s,
        JsonV::Text(s) => quoted(s),
        JsonV::List(a) => "["@ + text::joined(compact_items(a), ","@) + "]"@,
        JsonV::Object(m) => "{"@ + text::joined(compact_members(m), ","@) + "}"@,
    }
}

/// The items of a list, each written without blanks.
pub open spec fn compact_items(a: Seq<JsonV>) -> Seq<Seq<char>>
    decreases a,
{
    if a.len() == 0 {
        Seq::empty()
    } else {
        compact_items(a.drop_last()).push(compact(a.last()))
    }
}

/// The members of an object, each written without blanks.
pub open spec fn compact_members(m: Seq<(Seq<char>, JsonV)>) -> Seq<Seq<char>>
    decreases m,
{
    if m.len() == 0 {
        Seq::empty()
    } else {
        compact_members(m.drop_last()).push(quoted(m.last().0) + ":"@ + compact(m.last().1))
    }
}

impl Json {
    /// This value written without blanks.
    pub fn to_text(&self) -> (r: String)
        ensures
            r@ == compact(self@),
        decreases self,
    {
        match self {
            Json::Null => own("null"),
            Json::Bool(b) => if *b {
                own("true")
            } else {
                own("false")
            },
            Json::Number(s) => s.clone(),
            Json::Text(s) => quote(s),
            Json::List(v) => {
                let ghost all = value::items(v@);
                let mut parts: Vec<String> = Vec::new();
                assert(text::texts(parts@) =~= compact_items(all.take(0)));
                for i in 0..v.len()
                    invariant
                        self == Json::List(*v),
                        all == value::items(v@),
                        text::texts(parts@) == compact_items(all.take(i as int)),
                {
                    assert(decreases_to!(*self => self->List_0));
                    let ghost before = text::texts(parts@);
                    proof {
                        assert(all.take(i + 1).drop_last() == all.take(i as int));
                        assert(all[i as int] == v@[i as int]@);
                    }
                    parts.push(v[i].to_text());
                    assert(text::texts(parts@) =~= before.push(compact(all[i as int])));
                }
                assert(all.take(all.len() as int) == all);
                let mut out = own("[");
                let inner = join(&parts, ",");
                out.append(&inner);
                out.append("]");
                out
            },
            Json::Object(m) => {
                let ghost all = value::members(m@);
                let mut parts: Vec<String> = Vec::new();
                assert(text::texts(parts@) =~= compact_members(all.take(0)));
                for i in 0..m.len()
                    invariant
                        self == Json::Object(*m),
                        all == value::members(m@),
                        text::texts(parts@) == compact_members(all.take(i as int)),
                {
                    assert(decreases_to!(*self => self->Object_0));
                    let ghost before = text::texts(parts@);
                    proof {
                        assert(all.take(i + 1).drop_last() == all.take(i as int));
                        assert(all[i as int] == (m@[i as int].0@, m@[i as int].1@));
                    }
                    let mut part = quote(&m[i].0);
                    part.append(":");
                    let inner = m[i].1.to_text();
                    part.append(&inner);
                    let ghost written = part@;
                    parts.push(part);
                    assert(text::texts(parts@) =~= before.push(written));
                }
                assert(all.take(all.len() as int) == all);
                let mut out = own("{");
                let inner = join(&parts, ",");
                out.append(&inner);
                out.append("}");
                out
            },
        }
    }
}

// ---------------------------------------------------------------------------
// Reading
// ---------------------------------------------------------------------------

/// The type `serde_json` reads any JSON into.
#[verifier::external_type_specification]
#[verifier::external_body]
pub struct ExValue(serde_json::Value);

/// What `serde_json::from_str` reads a text as, when it is JSON.
pub uninterp spec fn json_value(text: Seq<char>) -> Option<JsonV>;

/// What a `serde_json::Value` holds.
pub uninterp spec fn value_json(v: serde_json::Value) -> JsonV;

/// One level of a `serde_json::Value`.
pub enum Node {
    Null,
    Bool(bool),
    Number(String),
    Text(String),
    List(Vec<serde_json::Value>),
    Object(Vec<(String, serde_json::Value)>),
}

/// What one level and all below it stand for.
pub open spec fn node_json(n: Node) -> JsonV {
    match n {
        Node::Null => JsonV::Null,
        Node::Bool(b) => JsonV::Bool(b),
        Node::Number(s) => JsonV::Number(s@),
        Node::Text(s) => JsonV::Text(s@),
        Node::List(a) => JsonV::List(a@.map_values(|v: serde_json::Value| value_json(v))),
        Node::Object(m) => JsonV::Object(
            m@.map_values(|p: (String, serde_json::Value)| (p.0@, value_json(p.1))),
        ),
    }
}

/// An object that holds one text.
pub open spec fn one_text(key: Seq<char>, t: Seq<char>) -> JsonV {
    JsonV::Object(seq![(key, JsonV::Text(t))])
}

/// `serde_json::from_str` into a `serde_json::Value`: what it reads is named
/// [`json_value`], and nothing where the text is not JSON. An object of one text,
/// written without blanks, is read back as it was written.
#[verifier::external_body]
fn read_value(text: &str) -> (r: Option<serde_json::Value>)
    ensures
        match r {
            Some(v) => json_value(text@) == Some(value_json(v)),
            None => json_value(text@) is None,
        },
        forall|key: Seq<char>, t: Seq<char>|
            text@ == #[trigger] compact(one_text(key, t)) ==> (match r {
                Some(v) => value_json(v) == one_text(key, t),
                None => false,
            }),
{
    serde_json::from_str::<serde_json::Value>(text).ok()
}

/// The variants of `serde_json::Value` told apart, a number by its `to_string`
/// and an object by its members in the order its map walks them.
#[verifier::external_body]
fn open_value(v: serde_json::Value) -> (r: Node)
    ensures
        node_json(r) == value_json(v),
{
    match v {
        serde_json::Value::Null => Node::Null,
        serde_json::Value::Bool(b) => Node::Bool(b),
        serde_json::Value::Number(n) => Node::Number(n.to_string()),
        serde_json::Value::String(s) => Node::Text(s),
        serde_json::Value::Array(a) => Node::List(a),
        serde_json::Value::Object(m) => Node::Object(m.into_iter().collect()),
    }
}

fn from_value(v: serde_json::Value) -> (r: Json)
    ensures
        r@ == value_json(v),
    decreases value_json(v),
{
    let ghost whole = value_json(v);
    match open_value(v) {
        Node::Null => Json::Null,
        Node::Bool(b) => Json::Bool(b),
        Node::Number(s) => Json::Number(s),
        Node::Text(s) => Json::Text(s),
        Node::List(a) => {
            let ghost all = a@;
            let mut out: Vec<Json> = Vec::new();
            for x in it: a
                invariant
                    whole == value_json(v),
                    whole is List,
                    whole->List_0 == all.map_values(|v: serde_json::Value| value_json(v)),
                    it.seq() == all,
                    out@.len() == it.index(),
                    forall|i: int| 0 <= i < out@.len() ==> out@[i]@ == value_json(all[i]),
            {
                assert(whole->List_0[out@.len() as int] == value_json(x));
                assert(decreases_to!(whole => whole->List_0[out@.len() as int]));
                out.push(from_value(x));
            }
            assert(value::items(out@) =~= whole->List_0);
            Json::List(out)
        },
        Node::Object(m) => {
            let ghost all = m@;
            let mut out: Vec<(String, Json)> = Vec::new();
            for x in it: m
                invariant
                    whole == value_json(v),
                    whole is Object,
                    whole->Object_0 == all.map_values(
                        |p: (String, serde_json::Value)| (p.0@, value_json(p.1)),
                    ),
                    it.seq() == all,
                    out@.len() == it.index(),
                    forall|i: int|
                        0 <= i < out@.len() ==> out@[i].0@ == all[i].0@ && out@[i].1@ == value_json(
                            all[i].1,
                        ),
            {
                let ghost k = out@.len() as int;
                assert(whole->Object_0[k] == (x.0@, value_json(x.1)));
                assert(decreases_to!(whole => whole->Object_0[k].1));
                out.push((x.0, from_value(x.1)));
            }
            assert(value::members(out@) =~= whole->Object_0);
            Json::Object(out)
        },
    }
}

impl Json {
    /// The value a text holds, when it is JSON.
    pub fn parse(text: &str) -> (r: Option<Json>)
        ensures
            match r {
                Some(j) => json_value(text@) == Some(j@),
                None => json_value(text@) is None,
            },
            forall|key: Seq<char>, t: Seq<char>|
                text@ == #[trigger] compact(one_text(key, t)) ==> json_value(text@) == Some(
                    one_text(key, t),
                ),
    {
        match read_value(text) {
            Some(v) => Some(from_value(v)),
            None => None,
        }
    }
}

// ---------------------------------------------------------------------------
// Building
// ---------------------------------------------------------------------------

/// A whole number the way JSON writes it.
pub open spec fn whole_number(n: int) -> JsonV {
    JsonV::Number(
        if n < 0 {
            "-"@ + text::decimal((-n) as nat)
        } else {
            text::decimal(n as nat)
        },
    )
}

/// A text, or `null`.
pub open spec fn text_or_null(o: Option<Seq<char>>) -> JsonV {
    match o {
        Some(s) => JsonV::Text(s),
        None => JsonV::Null,
    }
}

/// A truth value, or `null`.
pub open spec fn bool_or_null(o: Option<bool>) -> JsonV {
    match o {
        Some(b) => JsonV::Bool(b),
        None => JsonV::Null,
    }
}

/// A whole number, or `null`.
pub open spec fn number_or_null(o: Option<int>) -> JsonV {
    match o {
        Some(n) => whole_number(n),
        None => JsonV::Null,
    }
}

/// Texts as a list.
pub open spec fn text_list(v: Seq<Seq<char>>) -> JsonV {
    JsonV::List(v.map_values(|s: Seq<char>| JsonV::Text(s)))
}

impl Json {
    pub(crate) fn text(s: &str) -> (r: Json)
        ensures
            r@ == JsonV::Text(s@),
    {
        Json::Text(own(s))
    }

    pub(crate) fn opt_text(s: &Option<String>) -> (r: Json)
        ensures
            r@ == text_or_null(text::opt_text(*s)),
    {
        match s {
            Some(t) => Json::Text(t.clone()),
            None => Json::Null,
        }
    }

    pub(crate) fn opt_str(s: Option<&str>) -> (r: Json)
        ensures
            r@ == text_or_null(text::opt_str(s)),
    {
        match s {
            Some(t) => Json::Text(own(t)),
            None => Json::Null,
        }
    }

    pub(crate) fn opt_bool(b: Option<bool>) -> (r: Json)
        ensures
            r@ == bool_or_null(b),
    {
        match b {
            Some(x) => Json::Bool(x),
            None => Json::Null,
        }
    }

    /// A whole number.
    pub fn whole(n: i64) -> (r: Json)
        ensures
            r@ == whole_number(n as int),
    {
        if n < 0 {
            let m: u64 = (-(n as i128)) as u64;
            let mut out = own("-");
            let digits = number(m);
            out.append(&digits);
            Json::Number(out)
        } else {
            Json::Number(number(n as u64))
        }
    }

    pub(crate) fn count(n: usize) -> (r: Json)
        ensures
            r@ == whole_number(n as int),
    {
        Json::Number(number(n as u64))
    }

    pub(crate) fn opt_whole(n: Option<i64>) -> (r: Json)
        ensures
            r@ == number_or_null(
                match n {
                    Some(x) => Some(x as int),
                    None => None,
                },
            ),
    {
        match n {
            Some(x) => Json::whole(x),
            None => Json::Null,
        }
    }

    pub(crate) fn texts(v: &Vec<String>) -> (r: Json)
        ensures
            r@ == text_list(text::texts(v@)),
    {
        let mut out: Vec<Json> = Vec::new();
        for i in 0..v.len()
            invariant
                out@.len() == i,
                forall|k: int| 0 <= k < i ==> out@[k]@ == JsonV::Text(v@[k]@),
        {
            out.push(Json::Text(v[i].clone()));
        }
        assert(value::items(out@) =~= text::texts(v@).map_values(|s: Seq<char>| JsonV::Text(s)));
        Json::List(out)
    }
}

/// Put one more member into an object that is being built.
pub(crate) fn put(m: &mut Vec<(String, Json)>, key: &str, v: Json)
    ensures
        value::members(final(m)@) == value::members(old(m)@).push((key@, v@)),
{
    let ghost before = value::members(m@);
    let ghost pair = (key@, v@);
    m.push((own(key), v));
    assert(value::members(m@) =~= before.push(pair));
}

// ---------------------------------------------------------------------------
// Laws
// ---------------------------------------------------------------------------

/// A field of an object is the first member of that name; an object without one,
/// and what is no object, has no such field.
pub proof fn law_a_field_is_the_first_of_its_name(
    m: Seq<(Seq<char>, JsonV)>,
    key: Seq<char>,
    i: int,
    v: JsonV,
)
    ensures
        0 <= i < m.len() && m[i].0 == key && (forall|j: int|
            0 <= j < i ==> (#[trigger] m[j]).0 != key) ==> field(JsonV::Object(m), key) == Some(
            m[i].1,
        ),
        (forall|j: int| 0 <= j < m.len() ==> (#[trigger] m[j]).0 != key) ==> field(
            JsonV::Object(m),
            key,
        ) is None,
        !(v is Object) ==> field(v, key) is None,
{
    if 0 <= i < m.len() && m[i].0 == key && (forall|j: int|
        0 <= j < i ==> (#[trigger] m[j]).0 != key) {
        lemma_key_at(m, key, i);
    }
    if forall|j: int| 0 <= j < m.len() ==> (#[trigger] m[j]).0 != key {
        lemma_key_absent(m, key);
    }
}

/// A text field is a field that holds a text, and a list field one that holds a
/// list; a field that holds anything else is neither.
pub proof fn law_a_text_field_holds_a_text(v: JsonV, key: Seq<char>, t: Seq<char>, a: Seq<JsonV>)
    ensures
        text_field(v, key) == Some(t) <==> field(v, key) == Some(JsonV::Text(t)),
        list_field(v, key) == Some(a) <==> field(v, key) == Some(JsonV::List(a)),
        text_of(v) == Some(t) <==> v == JsonV::Text(t),
        list_of(v) == Some(a) <==> v == JsonV::List(a),
{
}

/// Lists are the same where they are as long as each other and the same item by
/// item.
pub proof fn law_lists_agree_item_by_item(a: Seq<JsonV>, b: Seq<JsonV>)
    ensures
        same_json(JsonV::List(a), JsonV::List(b)) <==> a.len() == b.len() && forall|i: int|
            0 <= i < a.len() ==> same_json(#[trigger] a[i], b[i]),
    decreases a.len(),
{
    if a.len() > 0 && b.len() > 0 {
        let c = a.drop_last();
        let d = b.drop_last();
        law_lists_agree_item_by_item(c, d);
        let last = a.len() - 1;
        if a.len() == b.len() && forall|i: int|
            0 <= i < a.len() ==> same_json(#[trigger] a[i], b[i]) {
            assert forall|i: int| 0 <= i < c.len() implies same_json(#[trigger] c[i], d[i]) by {
                assert(same_json(a[i], b[i]));
            }
            assert(same_json(a[last], b[last]));
        }
        if same_items(a, b) {
            assert forall|i: int| 0 <= i < a.len() implies same_json(#[trigger] a[i], b[i]) by {
                if i < last {
                    assert(same_json(c[i], d[i]));
                }
            }
        }
    }
}

/// Objects are the same where they have as many members and agree in name and
/// value, member by member.
pub proof fn law_objects_agree_member_by_member(
    a: Seq<(Seq<char>, JsonV)>,
    b: Seq<(Seq<char>, JsonV)>,
)
    ensures
        same_json(JsonV::Object(a), JsonV::Object(b)) <==> a.len() == b.len() && forall|i: int|
            0 <= i < a.len() ==> (#[trigger] a[i]).0 == b[i].0 && same_json(a[i].1, b[i].1),
    decreases a.len(),
{
    if a.len() > 0 && b.len() > 0 {
        let c = a.drop_last();
        let d = b.drop_last();
        law_objects_agree_member_by_member(c, d);
        let last = a.len() - 1;
        if a.len() == b.len() && forall|i: int|
            0 <= i < a.len() ==> (#[trigger] a[i]).0 == b[i].0 && same_json(a[i].1, b[i].1) {
            assert forall|i: int| 0 <= i < c.len() implies (#[trigger] c[i]).0 == d[i].0
                && same_json(c[i].1, d[i].1) by {
                assert(a[i].0 == b[i].0);
            }
            assert(a[last].0 == b[last].0);
        }
        if same_members(a, b) {
            assert forall|i: int| 0 <= i < a.len() implies (#[trigger] a[i]).0 == b[i].0
                && same_json(a[i].1, b[i].1) by {
                if i < last {
                    assert(c[i].0 == d[i].0);
                }
            }
        }
    }
}

/// Values of different kinds are never the same. Null is null; truth values and
/// texts are the same where they are equal, and numbers where they are written
/// alike or are the two noughts.
pub proof fn law_plain_values_agree_when_equal(a: JsonV, b: JsonV)
    ensures
        same_json(a, b) ==> (a is Null <==> b is Null) && (a is Bool <==> b is Bool) && (a is Number
            <==> b is Number) && (a is Text <==> b is Text) && (a is List <==> b is List) && (
        a is Object <==> b is Object),
        a is Null ==> (same_json(a, b) <==> b is Null),
        a is Bool || a is Text ==> (same_json(a, b) <==> a == b),
        a is Number ==> (same_json(a, b) <==> b is Number && (a == b || (a->Number_0 == "0.0"@
            || a->Number_0 == "-0.0"@) && (b->Number_0 == "0.0"@ || b->Number_0 == "-0.0"@))),
{
}

/// Every value is the same as itself.
pub proof fn law_a_value_is_the_same_as_itself(v: JsonV)
    ensures
        same_json(v, v),
    decreases v,
{
    match v {
        JsonV::List(a) => {
            assert forall|i: int| 0 <= i < a.len() implies same_json(#[trigger] a[i], a[i]) by {
                law_a_value_is_the_same_as_itself(a[i]);
            }
            law_lists_agree_item_by_item(a, a);
        },
        JsonV::Object(m) => {
            assert forall|i: int| 0 <= i < m.len() implies (#[trigger] m[i]).0 == m[i].0
                && same_json(m[i].1, m[i].1) by {
                law_a_value_is_the_same_as_itself(m[i].1);
            }
            law_objects_agree_member_by_member(m, m);
        },
        _ => {},
    }
}

/// A list is written out item by item and an object member by member, in order,
/// with commas between them.
pub proof fn law_each_item_is_written(a: Seq<JsonV>, m: Seq<(Seq<char>, JsonV)>, i: int)
    ensures
        compact(JsonV::List(a)) == "["@ + text::joined(compact_items(a), ","@) + "]"@,
        compact_items(a).len() == a.len(),
        0 <= i < a.len() ==> compact_items(a)[i] == compact(a[i]),
        compact(JsonV::Object(m)) == "{"@ + text::joined(compact_members(m), ","@) + "}"@,
        compact_members(m).len() == m.len(),
        0 <= i < m.len() ==> compact_members(m)[i] == quoted(m[i].0) + ":"@ + compact(m[i].1),
    decreases a.len() + m.len(),
{
    if a.len() > 0 {
        law_each_item_is_written(a.drop_last(), Seq::empty(), i);
    }
    if m.len() > 0 {
        law_each_item_is_written(Seq::empty(), m.drop_last(), i);
    }
}

/// A text is written between quotes, character by character; only a quote, a
/// backslash and a control character are written as anything but themselves, each
/// of them behind a backslash, and no two characters are written alike.
pub proof fn law_a_text_is_written_between_quotes(a: Seq<char>, b: Seq<char>, c: char, d: char)
    ensures
        compact(JsonV::Text(a)) == seq!['"'] + escaped(a) + seq!['"'],
        escaped(a + b) == escaped(a) + escaped(b),
        escaped(seq![c]) == escaped_char(c),
        c != '"' && c != '\\' && (c as u32) >= 32 ==> escaped_char(c) == seq![c],
        c == '"' || c == '\\' ==> escaped_char(c) == seq!['\\', c],
        (c as u32) < 32 ==> escaped_char(c).len() >= 2 && escaped_char(c)[0] == '\\'
            && escaped_char(c)[1] != '"' && escaped_char(c)[1] != '\\',
        escaped_char('\n') == seq!['\\', 'n'],
        escaped_char('\t') == seq!['\\', 't'],
        escaped_char('\r') == seq!['\\', 'r'],
        escaped_char(c) == escaped_char(d) ==> c == d,
    decreases b.len(),
{
    if b.len() == 0 {
        assert(a + b == a);
        assert(escaped(a) + escaped(b) == escaped(a));
    } else {
        law_a_text_is_written_between_quotes(a, b.drop_last(), c, d);
        assert((a + b).drop_last() == a + b.drop_last());
        assert((a + b).last() == b.last());
    }
    assert(seq![c].drop_last().len() == 0);
    assert(escaped(seq![c].drop_last()).len() == 0);
    assert(escaped(seq![c]) == escaped_char(c));
    if escaped_char(c) == escaped_char(d) {
        let x = escaped_char(c);
        let y = escaped_char(d);
        assert(x.len() == y.len());
        assert(x[0] == y[0]);
        if x.len() > 1 {
            assert(x[1] == y[1]);
        }
        if x.len() > 2 {
            assert(x[4] == y[4] && x[5] == y[5]);
        }
    }
}

/// A whole number is written in decimal, behind a minus where it is below
/// nought; null, true and false are written as such, and a number as it is.
pub proof fn law_plain_values_are_written_plainly(n: int, s: Seq<char>)
    ensures
        n >= 0 ==> compact(whole_number(n)) == text::decimal(n as nat),
        n < 0 ==> compact(whole_number(n)) == seq!['-'] + text::decimal((-n) as nat),
        compact(JsonV::Null) == "null"@,
        compact(JsonV::Bool(true)) == "true"@,
        compact(JsonV::Bool(false)) == "false"@,
        compact(JsonV::Number(s)) == s,
{
    reveal_strlit("-");
    assert("-"@ == seq!['-']);
}

/// What may be missing is written as null where it is, and as itself where it is
/// not; a row of texts is a list of them, one for one.
pub proof fn law_what_is_missing_is_null(
    t: Seq<char>,
    b: bool,
    n: int,
    v: Seq<Seq<char>>,
    i: int,
    key: Seq<char>,
)
    ensures
        text_or_null(None) is Null && bool_or_null(None) is Null && number_or_null(None) is Null,
        text_or_null(Some(t)) == JsonV::Text(t),
        bool_or_null(Some(b)) == JsonV::Bool(b),
        number_or_null(Some(n)) == whole_number(n),
        text_list(v) is List,
        text_list(v)->List_0.len() == v.len(),
        0 <= i < v.len() ==> text_list(v)->List_0[i] == JsonV::Text(v[i]),
        text_field(one_text(key, t), key) == Some(t),
{
    lemma_key_at(seq![(key, JsonV::Text(t))], key, 0);
}

/// A number is whole exactly where every digit that stands behind the point, once
/// the exponent has moved it, is a nought; a sign changes nothing.
pub proof fn law_whole_is_nothing_behind_the_point(
    w: Seq<char>,
    f: Seq<char>,
    point: bool,
    mark: char,
    turn: Seq<char>,
    ds: Seq<char>,
)
    requires
        decimal::all_digits(w),
        decimal::all_digits(f),
        decimal::all_digits(ds),
        decimal::is_exponent(mark, turn),
        !point ==> f.len() == 0,
    ensures
        ({
            let s = decimal::numeral(w, f, point, mark, turn, ds);
            let shift = decimal::shifted_by(turn, ds);
            let whole = forall|i: int|
                w.len() + shift <= i && 0 <= i < w.len() + f.len() ==> #[trigger] (w + f)[i] == '0';
            &&& w.len() > 0 ==> (is_whole(s) <==> whole)
            &&& is_whole(seq!['-'] + s) <==> whole
        }),
{
    let s = decimal::numeral(w, f, point, mark, turn, ds);
    if w.len() > 0 {
        lemma_parts(Seq::empty(), w, f, point, mark, turn, ds);
        assert(Seq::<char>::empty() + s == s);
    }
    lemma_parts(seq!['-'], w, f, point, mark, turn, ds);
}

proof fn lemma_exponent(front: Seq<char>, mark: char, turn: Seq<char>, ds: Seq<char>)
    requires
        decimal::all_digits(ds),
        decimal::is_exponent(mark, turn),
    ensures
        written_exponent(front + decimal::exponent_text(mark, turn, ds), front.len() as int)
            == decimal::shifted_by(turn, ds),
{
    let tail = decimal::exponent_text(mark, turn, ds);
    let s = front + tail;
    let d = front.len() as int;
    if ds.len() > 0 {
        assert(s[d] == tail[0]);
        assert(s[d + 1] == tail[1]);
        assert(decimal::is_digit(ds[0]));
        let e = d + 1 + turn.len();
        assert forall|k: int| e <= k < s.len() implies decimal::is_digit(#[trigger] s[k]) by {
            assert(s[k] == ds[k - e]);
        }
        decimal::lemma_run_of_digits(s, e, s.len() as int);
        assert(s.subrange(e, s.len() as int) == ds);
        decimal::lemma_said(ds);
        if turn.len() == 0 {
            assert(s[d + 1] == ds[0]);
        } else {
            assert(s[d + 1] == turn[0]);
        }
    } else {
        assert(text::said_by(ds) == 0);
    }
}

proof fn lemma_parts(
    sign: Seq<char>,
    w: Seq<char>,
    f: Seq<char>,
    point: bool,
    mark: char,
    turn: Seq<char>,
    ds: Seq<char>,
)
    requires
        decimal::all_digits(w),
        decimal::all_digits(f),
        decimal::all_digits(ds),
        decimal::is_exponent(mark, turn),
        !point ==> f.len() == 0,
        sign == Seq::<char>::empty() && w.len() > 0 || sign == seq!['-'],
    ensures
        ({
            let p = number_parts(sign + decimal::numeral(w, f, point, mark, turn, ds));
            p.digits == w + f && p.fraction == f.len() && p.exponent == decimal::shifted_by(turn, ds)
        }),
{
    let t = decimal::numeral(w, f, point, mark, turn, ds);
    let s = sign + t;
    let a = sign.len() as int;
    let b = a + w.len();
    let c = b + (if point {
        1int
    } else {
        0int
    });
    let d = c + f.len();
    let dot = if point {
        seq!['.']
    } else {
        Seq::empty()
    };
    let tail = decimal::exponent_text(mark, turn, ds);
    assert(s == sign + w + dot + f + tail);
    assert forall|k: int| a <= k < b implies decimal::is_digit(#[trigger] s[k]) by {
        assert(s[k] == w[k - a]);
    }
    if point {
        assert(s[b] == '.');
    } else if ds.len() > 0 {
        assert(s[b] == tail[0]);
    }
    decimal::lemma_run_of_digits(s, a, b);
    assert forall|k: int| c <= k < d implies decimal::is_digit(#[trigger] s[k]) by {
        assert(s[k] == f[k - c]);
    }
    if ds.len() > 0 {
        assert(s[d] == tail[0]);
    }
    decimal::lemma_run_of_digits(s, c, d);
    assert(s.subrange(a, b) == w);
    assert(s.subrange(c, d) == f);
    lemma_exponent(sign + w + dot + f, mark, turn, ds);
    if sign.len() == 0 {
        assert(s[0] == w[0]);
    } else {
        assert(s[0] == '-');
    }
}

} // verus!
