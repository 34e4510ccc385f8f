//! Text, as sequences of characters.
//!
//! Everything the library decides about words it decides here: what counts as
//! blank, where a line is cut, whether two names are the same name. Each
//! operation is stated over `Seq<char>`, so a caller's contract can say what a
//! string holds instead of how it was put together.

use vstd::prelude::*;

verus! {

/// What `char::is_whitespace` makes of a character.
pub uninterp spec fn unicode_space(c: char) -> bool;

/// What `char::is_alphanumeric` makes of a character.
pub uninterp spec fn unicode_alnum(c: char) -> bool;

/// What `str::to_lowercase` makes of a text.
pub uninterp spec fn unicode_lowered(s: Seq<char>) -> Seq<char>;

/// What `char::to_lowercase` makes of a character.
pub uninterp spec fn unicode_lowered_char(c: char) -> Seq<char>;

/// Whether a character is an ASCII one.
pub open spec fn is_ascii(c: char) -> bool {
    (c as u32) < 128
}

/// Whether every character of a text is an ASCII one.
pub open spec fn all_ascii(s: Seq<char>) -> bool {
    forall|i: int| 0 <= i < s.len() ==> is_ascii(#[trigger] s[i])
}

/// Whether a character is blank: the space and U+0009 to U+000D among the ASCII
/// characters, and whatever `char::is_whitespace` says beyond them.
pub open spec fn is_space(c: char) -> bool {
    if is_ascii(c) {
        c == ' ' || 9 <= (c as u32) <= 13
    } else {
        unicode_space(c)
    }
}

/// Whether a character is a letter or a digit: by its place among the ASCII
/// characters, and whatever `char::is_alphanumeric` says beyond them.
pub open spec fn is_alnum(c: char) -> bool {
    if is_ascii(c) {
        'a' <= c <= 'z' || 'A' <= c <= 'Z' || '0' <= c <= '9'
    } else {
        unicode_alnum(c)
    }
}

/// A text in lower case: letter by letter where it is ASCII, and whatever
/// `str::to_lowercase` says of any other.
pub open spec fn lowered(s: Seq<char>) -> Seq<char> {
    if all_ascii(s) {
        s.map_values(|c: char| ascii_low(c))
    } else {
        unicode_lowered(s)
    }
}

/// One character in lower case: the small letter of an ASCII one, and whatever
/// `char::to_lowercase` says of any other.
pub open spec fn lowered_char(c: char) -> Seq<char> {
    if is_ascii(c) {
        seq![ascii_low(c)]
    } else {
        unicode_lowered_char(c)
    }
}

/// `char::is_whitespace`, under the name [`unicode_space`]; among the ASCII
/// characters it holds of the space and of U+0009 to U+000D, and of no other.
#[verifier::external_body]
fn std_is_whitespace(c: char) -> (r: bool)
    ensures
        r == unicode_space(c),
        is_ascii(c) ==> r == (c == ' ' || 9 <= (c as u32) <= 13),
{
    c.is_whitespace()
}

/// `char::is_alphanumeric`, under the name [`unicode_alnum`]; among the ASCII
/// characters it holds of the letters and the digits, and of no other.
#[verifier::external_body]
fn std_is_alphanumeric(c: char) -> (r: bool)
    ensures
        r == unicode_alnum(c),
        is_ascii(c) ==> r == ('a' <= c <= 'z' || 'A' <= c <= 'Z' || '0' <= c <= '9'),
{
    c.is_alphanumeric()
}

/// `str::to_lowercase`, under the name [`unicode_lowered`]; an ASCII text becomes
/// the text of its small letters.
#[verifier::external_body]
fn std_to_lowercase(s: &str) -> (r: String)
    ensures
        r@ == unicode_lowered(s@),
        all_ascii(s@) ==> r@ == s@.map_values(|c: char| ascii_low(c)),
{
    s.to_lowercase()
}

/// `char::to_lowercase`, collected, under the name [`unicode_lowered_char`]; an
/// ASCII character becomes its small letter.
#[verifier::external_body]
fn std_char_to_lowercase(c: char) -> (r: Vec<char>)
    ensures
        r@ == unicode_lowered_char(c),
        is_ascii(c) ==> r@ == seq![ascii_low(c)],
{
    c.to_lowercase().collect()
}

fn char_is_space(c: char) -> (r: bool)
    ensures
        r == is_space(c),
{
    std_is_whitespace(c)
}

pub(crate) fn char_is_alnum(c: char) -> (r: bool)
    ensures
        r == is_alnum(c),
{
    std_is_alphanumeric(c)
}

pub(crate) fn lowercase(s: &str) -> (r: String)
    ensures
        r@ == lowered(s@),
{
    std_to_lowercase(s)
}

pub(crate) fn lowercase_char(c: char) -> (r: Vec<char>)
    ensures
        r@ == lowered_char(c),
{
    std_char_to_lowercase(c)
}

/// `String::push` puts one character at the end of a string.
pub assume_specification[ String::push ](s: &mut String, c: char)
    ensures
        final(s)@ == old(s)@.push(c),
;

// ---------------------------------------------------------------------------
// Lists of texts
// ---------------------------------------------------------------------------

/// The contents of a list of texts.
pub open spec fn texts<T: View<V = Seq<char>>>(v: Seq<T>) -> Seq<Seq<char>> {
    v.map_values(|t: T| t@)
}

/// The text behind an optional string.
pub open spec fn opt_text(o: Option<String>) -> Option<Seq<char>> {
    match o {
        Some(s) => Some(s@),
        None => None,
    }
}

/// The text behind an optional string slice.
pub open spec fn opt_str(o: Option<&str>) -> Option<Seq<char>> {
    match o {
        Some(s) => Some(s@),
        None => None,
    }
}

/// Texts put one after another, with `sep` between neighbours.
pub open spec fn joined(parts: Seq<Seq<char>>, sep: Seq<char>) -> Seq<char>
    decreases parts.len(),
{
    if parts.len() == 0 {
        Seq::empty()
    } else if parts.len() == 1 {
        parts[0]
    } else {
        joined(parts.drop_last(), sep) + sep + parts.last()
    }
}

// ---------------------------------------------------------------------------
// Kinds of character, and cutting a text at them
// ---------------------------------------------------------------------------

/// The kinds of character a text is trimmed of or cut at.
#[derive(Clone, Copy)]
pub enum Kind {
    /// Blank characters.
    Space,
    /// Anything that is neither a letter nor a digit.
    NotAlnum,
    /// `'` and `"`.
    Quote,
    /// `'`.
    Apostrophe,
    /// `"`.
    DoubleQuote,
    /// `,`.
    Comma,
    /// The line feed.
    Newline,
    /// `:`.
    Colon,
    /// `-` and `_`.
    Dash,
}

/// Whether a character is of a kind.
pub open spec fn of_kind(k: Kind, c: char) -> bool {
    match k {
        Kind::Space => is_space(c),
        Kind::NotAlnum => !is_alnum(c),
        Kind::Quote => c == '\'' || c == '"',
        Kind::Apostrophe => c == '\'',
        Kind::DoubleQuote => c == '"',
        Kind::Comma => c == ',',
        Kind::Newline => c == '\n',
        Kind::Colon => c == ':',
        Kind::Dash => c == '-' || c == '_',
    }
}

fn char_of_kind(k: Kind, c: char) -> (r: bool)
    ensures
        r == of_kind(k, c),
{
    match k {
        Kind::Space => char_is_space(c),
        Kind::NotAlnum => !char_is_alnum(c),
        Kind::Quote => c == '\'' || c == '"',
        Kind::Apostrophe => c == '\'',
        Kind::DoubleQuote => c == '"',
        Kind::Comma => c == ',',
        Kind::Newline => c == '\n',
        Kind::Colon => c == ':',
        Kind::Dash => c == '-' || c == '_',
    }
}

/// `s` without the characters of kind `k` at its start.
pub open spec fn strip_start(s: Seq<char>, k: Kind) -> Seq<char>
    decreases s.len(),
{
    if s.len() > 0 && of_kind(k, s[0]) {
        strip_start(s.drop_first(), k)
    } else {
        s
    }
}

/// `s` without the characters of kind `k` at its end.
pub open spec fn strip_end(s: Seq<char>, k: Kind) -> Seq<char>
    decreases s.len(),
{
    if s.len() > 0 && of_kind(k, s.last()) {
        strip_end(s.drop_last(), k)
    } else {
        s
    }
}

/// `s` without the characters of kind `k` at either end.
pub open spec fn stripped(s: Seq<char>, k: Kind) -> Seq<char> {
    strip_end(strip_start(s, k), k)
}

/// `s` without the blank characters at either end.
pub open spec fn trimmed(s: Seq<char>) -> Seq<char> {
    stripped(s, Kind::Space)
}

/// Whether nothing but blank characters stands in `s`.
pub open spec fn is_blank_text(s: Seq<char>) -> bool {
    trimmed(s).len() == 0
}

/// The position of the first character of kind `k`, or the length of `s`
/// where there is none.
pub open spec fn first_of(s: Seq<char>, k: Kind) -> nat
    decreases s.len(),
{
    if s.len() == 0 || of_kind(k, s[0]) {
        0
    } else {
        1 + first_of(s.drop_first(), k)
    }
}

/// `s` cut at every character of kind `k`: what stands before, between and
/// after them, empty pieces included.
pub open spec fn pieces(s: Seq<char>, k: Kind) -> Seq<Seq<char>>
    decreases s.len(),
{
    let i = first_of(s, k) as int;
    if i >= s.len() {
        seq![s]
    } else {
        seq![s.take(i)] + pieces(s.skip(i + 1), k)
    }
}

/// The pieces of `s` that hold something.
pub open spec fn filled_pieces(s: Seq<char>, k: Kind) -> Seq<Seq<char>> {
    pieces(s, k).filter(|p: Seq<char>| p.len() > 0)
}

/// Behind a text that ends in a character of kind `k`, the pieces of what follows
/// are the pieces of the whole.
pub proof fn lemma_pieces_behind(a: Seq<char>, b: Seq<char>, k: Kind)
    requires
        a.len() > 0,
        of_kind(k, a.last()),
    ensures
        pieces(a, k).len() >= 2,
        pieces(a, k).last() == Seq::<char>::empty(),
        pieces(a + b, k) == pieces(a, k).drop_last() + pieces(b, k),
    decreases a.len(),
{
    let i = first_of(a, k) as int;
    lemma_first_of_found(a, k);
    let whole = a + b;
    assert(whole[i] == a[i]);
    assert forall|j: int| 0 <= j < i implies !of_kind(k, #[trigger] whole[j]) by {
        assert(whole[j] == a[j]);
    }
    lemma_first_of(whole, k, i);
    let rest = a.skip(i + 1);
    assert(whole.take(i) == a.take(i));
    assert(whole.skip(i + 1) == rest + b);
    if rest.len() == 0 {
        assert(rest == Seq::<char>::empty());
        assert(rest + b == b);
        assert(pieces(rest, k) == seq![rest]);
        assert(pieces(a, k) =~= seq![a.take(i), rest]);
        assert(pieces(a, k).drop_last() =~= seq![a.take(i)]);
    } else {
        assert(rest.last() == a.last());
        lemma_pieces_behind(rest, b, k);
        assert(pieces(a, k).drop_last() =~= seq![a.take(i)] + pieces(rest, k).drop_last());
        assert(pieces(whole, k) =~= pieces(a, k).drop_last() + pieces(b, k));
    }
}

proof fn lemma_first_of_found(s: Seq<char>, k: Kind)
    requires
        s.len() > 0,
        of_kind(k, s.last()),
    ensures
        first_of(s, k) < s.len(),
        of_kind(k, s[first_of(s, k) as int]),
        forall|j: int| 0 <= j < first_of(s, k) ==> !of_kind(k, #[trigger] s[j]),
    decreases s.len(),
{
    if !of_kind(k, s[0]) {
        let rest = s.drop_first();
        assert(rest.last() == s.last());
        lemma_first_of_found(rest, k);
        assert forall|j: int| 0 <= j < first_of(s, k) implies !of_kind(k, #[trigger] s[j]) by {
            if j > 0 {
                assert(s[j] == rest[j - 1]);
            }
        }
        assert(s[first_of(s, k) as int] == rest[first_of(rest, k) as int]);
    }
}

pub proof fn lemma_first_of(s: Seq<char>, k: Kind, i: int)
    requires
        0 <= i <= s.len(),
        forall|j: int| 0 <= j < i ==> !of_kind(k, #[trigger] s[j]),
        i < s.len() ==> of_kind(k, s[i]),
    ensures
        first_of(s, k) == i,
    decreases s.len(),
{
    if i > 0 {
        assert(!of_kind(k, s[0]));
        let t = s.drop_first();
        assert forall|j: int| 0 <= j < i - 1 implies !of_kind(k, #[trigger] t[j]) by {
            assert(t[j] == s[j + 1]);
        }
        lemma_first_of(t, k, i - 1);
    }
}

// ---------------------------------------------------------------------------
// Strings and their characters
// ---------------------------------------------------------------------------

/// The characters of a string, in order.
pub(crate) fn to_chars(s: &str) -> (r: Vec<char>)
    ensures
        r@ == s@,
{
    let mut out: Vec<char> = Vec::new();
    for c in it: s.chars()
        invariant
            out@ == s@.take(it.index() as int),
            it.seq() == s@,
    {
        out.push(c);
        assert(s@.take(it.index() + 1) == s@.take(it.index() as int).push(c));
    }
    assert(s@.take(s@.len() as int) == s@);
    out
}

/// The characters from `lo` up to `hi` as a string.
pub(crate) fn from_chars(v: &Vec<char>, lo: usize, hi: usize) -> (r: String)
    requires
        lo <= hi <= v@.len(),
    ensures
        r@ == v@.subrange(lo as int, hi as int),
{
    let mut out = String::new();
    for i in lo..hi
        invariant
            lo <= hi <= v@.len(),
            lo <= i <= hi,
            out@ == v@.subrange(lo as int, i as int),
    {
        out.push(v[i]);
        assert(v@.subrange(lo as int, i + 1) == v@.subrange(lo as int, i as int).push(v@[i as int]));
    }
    out
}

/// A string of its own with the same text.
pub(crate) fn own(s: &str) -> (r: String)
    ensures
        r@ == s@,
{
    s.to_owned()
}

/// An optional string of its own with the same text.
pub(crate) fn own_opt(s: Option<&str>) -> (r: Option<String>)
    ensures
        opt_text(r) == opt_str(s),
{
    match s {
        Some(t) => Some(t.to_owned()),
        None => None,
    }
}

/// A copy of an optional string.
pub(crate) fn copy_opt(s: &Option<String>) -> (r: Option<String>)
    ensures
        r == *s,
{
    match s {
        Some(t) => Some(t.clone()),
        None => None,
    }
}

/// A copy of a list of strings.
pub(crate) fn copy_texts(v: &Vec<String>) -> (r: Vec<String>)
    ensures
        r@ == v@,
        texts(r@) == texts(v@),
{
    let mut out: Vec<String> = Vec::new();
    for i in 0..v.len()
        invariant
            out@ == v@.take(i as int),
    {
        out.push(v[i].clone());
        assert(v@.take(i + 1) == v@.take(i as int).push(v@[i as int]));
    }
    assert(v@.take(v@.len() as int) == v@);
    out
}

/// Whether two strings hold the same text.
pub(crate) fn same(a: &str, b: &str) -> (r: bool)
    ensures
        r == (a@ == b@),
{
    let x = to_chars(a);
    let y = to_chars(b);
    same_chars(&x, &y)
}

pub(crate) fn same_chars(x: &Vec<char>, y: &Vec<char>) -> (r: bool)
    ensures
        r == (x@ == y@),
{
    if x.len() != y.len() {
        return false;
    }
    for i in 0..x.len()
        invariant
            x@.len() == y@.len(),
            forall|j: int| 0 <= j < i ==> x@[j] == y@[j],
    {
        if x[i] != y[i] {
            return false;
        }
    }
    assert(x@ =~= y@);
    true
}

/// Whether two optional strings hold the same text.
pub(crate) fn same_opt(a: &Option<String>, b: &Option<String>) -> (r: bool)
    ensures
        r == (opt_text(*a) == opt_text(*b)),
{
    match (a, b) {
        (Some(x), Some(y)) => same(x, y),
        (None, None) => true,
        _ => false,
    }
}

/// Whether `v` holds the text of `s`.
pub(crate) fn has_text(v: &Vec<String>, s: &str) -> (r: bool)
    ensures
        r == texts(v@).contains(s@),
{
    for i in 0..v.len()
        invariant
            forall|j: int| 0 <= j < i ==> v@[j]@ != s@,
    {
        if same(&v[i], s) {
            assert(texts(v@)[i as int] == s@);
            return true;
        }
    }
    assert forall|j: int| 0 <= j < texts(v@).len() implies texts(v@)[j] != s@ by {
        assert(texts(v@)[j] == v@[j]@);
    }
    false
}

/// [`joined`].
pub(crate) fn join(parts: &Vec<String>, sep: &str) -> (r: String)
    ensures
        r@ == joined(texts(parts@), sep@),
{
    let ghost all = texts(parts@);
    let mut out = String::new();
    for i in 0..parts.len()
        invariant
            all == texts(parts@),
            out@ == joined(all.take(i as int), sep@),
    {
        assert(all[i as int] == parts@[i as int]@);
        assert(all.take(i + 1).drop_last() == all.take(i as int));
        assert(all.take(i + 1).last() == all[i as int]);
        if i > 0 {
            out.append(sep);
            out.append(&parts[i]);
        } else {
            out.append(&parts[i]);
            assert(out@ =~= all[0]);
        }
    }
    assert(all.take(all.len() as int) == all);
    out
}

// ---------------------------------------------------------------------------
// Trimming and cutting
// ---------------------------------------------------------------------------

/// [`stripped`].
pub(crate) fn strip(s: &str, k: Kind) -> (r: String)
    ensures
        r@ == stripped(s@, k),
{
    let v = to_chars(s);
    let n = v.len();
    let mut lo: usize = 0;
    assert(v@.skip(0) == v@);
    while lo < n && char_of_kind(k, v[lo])
        invariant
            lo <= n,
            n == v@.len(),
            v@ == s@,
            strip_start(s@, k) == strip_start(v@.skip(lo as int), k),
        decreases n - lo,
    {
        assert(v@.skip(lo as int).drop_first() == v@.skip(lo + 1));
        lo = lo + 1;
    }
    let ghost mid = v@.skip(lo as int);
    assert(strip_start(s@, k) == mid);
    let mut hi: usize = n;
    assert(mid.take(hi - lo) == mid);
    while hi > lo && char_of_kind(k, v[hi - 1])
        invariant
            lo <= hi <= n,
            n == v@.len(),
            mid == v@.skip(lo as int),
            strip_end(mid, k) == strip_end(mid.take(hi - lo), k),
        decreases hi,
    {
        assert(mid.take(hi - lo).drop_last() == mid.take(hi - 1 - lo));
        hi = hi - 1;
    }
    assert(mid.take(hi - lo) == v@.subrange(lo as int, hi as int));
    from_chars(&v, lo, hi)
}

/// [`trimmed`].
pub(crate) fn trim(s: &str) -> (r: String)
    ensures
        r@ == trimmed(s@),
{
    strip(s, Kind::Space)
}

/// [`is_blank_text`].
pub(crate) fn blank(s: &str) -> (r: bool)
    ensures
        r == is_blank_text(s@),
{
    let t = trim(s);
    t.as_str().is_empty()
}

/// [`pieces`].
pub(crate) fn cut(s: &str, k: Kind) -> (r: Vec<String>)
    ensures
        texts(r@) == pieces(s@, k),
{
    let v = to_chars(s);
    let n = v.len();
    let mut out: Vec<String> = Vec::new();
    let mut start: usize = 0;
    let mut i: usize = 0;
    assert(v@.skip(0) == v@);
    assert(texts(out@) + pieces(v@, k) =~= pieces(v@, k));
    while i < n
        invariant
            start <= i <= n,
            n == v@.len(),
            v@ == s@,
            texts(out@) + pieces(v@.skip(start as int), k) == pieces(s@, k),
            forall|j: int| start <= j < i ==> !of_kind(k, #[trigger] v@[j]),
        decreases n - i,
    {
        if char_of_kind(k, v[i]) {
            let ghost rest = v@.skip(start as int);
            let ghost before = texts(out@);
            proof {
                assert forall|j: int| 0 <= j < i - start implies !of_kind(k, #[trigger] rest[j]) by {
                    assert(rest[j] == v@[j + start]);
                }
                lemma_first_of(rest, k, i - start);
                assert(rest.take(i - start) == v@.subrange(start as int, i as int));
                assert(rest.skip(i - start + 1) == v@.skip(i + 1));
            }
            let piece = from_chars(&v, start, i);
            out.push(piece);
            assert(texts(out@) =~= before.push(piece@));
            assert(texts(out@) + pieces(v@.skip(i + 1), k) =~= before + pieces(rest, k));
            start = i + 1;
        }
        i = i + 1;
    }
    let ghost rest = v@.skip(start as int);
    let ghost before = texts(out@);
    proof {
        assert forall|j: int| 0 <= j < n - start implies !of_kind(k, #[trigger] rest[j]) by {
            assert(rest[j] == v@[j + start]);
        }
        lemma_first_of(rest, k, n - start);
        assert(rest == v@.subrange(start as int, n as int));
    }
    let piece = from_chars(&v, start, n);
    out.push(piece);
    assert(texts(out@) =~= before.push(piece@));
    assert(texts(out@) =~= before + pieces(rest, k));
    out
}

/// The texts that hold something.
pub open spec fn filled(v: Seq<Seq<char>>) -> Seq<Seq<char>> {
    v.filter(|p: Seq<char>| p.len() > 0)
}

/// [`filled_pieces`].
pub(crate) fn cut_filled(s: &str, k: Kind) -> (r: Vec<String>)
    ensures
        texts(r@) == filled_pieces(s@, k),
{
    let all = cut(s, k);
    let ghost keep = |p: Seq<char>| p.len() > 0;
    let ghost whole = texts(all@);
    let mut out: Vec<String> = Vec::new();
    assert(whole.take(0).filter(keep) =~= Seq::empty()) by {
        reveal(Seq::filter);
    }
    assert(texts(out@) =~= Seq::empty());
    for i in 0..all.len()
        invariant
            whole == texts(all@),
            keep == (|p: Seq<char>| p.len() > 0),
            texts(out@) == whole.take(i as int).filter(keep),
    {
        let ghost before = texts(out@);
        proof {
            assert(whole[i as int] == all@[i as int]@);
            assert(whole.take(i + 1).drop_last() == whole.take(i as int));
            reveal(Seq::filter);
        }
        if !all[i].as_str().is_empty() {
            out.push(all[i].clone());
            assert(texts(out@) =~= before.push(all@[i as int]@));
        }
    }
    assert(whole.take(whole.len() as int) == whole);
    out
}

// ---------------------------------------------------------------------------
// Looking for one text inside another
// ---------------------------------------------------------------------------

/// Whether `pat` stands in `s` at position `i`.
pub open spec fn is_at(s: Seq<char>, pat: Seq<char>, i: int) -> bool {
    0 <= i && i + pat.len() <= s.len() && s.subrange(i, i + pat.len()) == pat
}

/// Whether `pat` stands somewhere in `s`.
pub open spec fn has_sub(s: Seq<char>, pat: Seq<char>) -> bool {
    exists|i: int| is_at(s, pat, i)
}

/// Whether one of `words` stands somewhere in `s`.
pub open spec fn has_any(s: Seq<char>, words: Seq<Seq<char>>) -> bool {
    exists|i: int| 0 <= i < words.len() && has_sub(s, #[trigger] words[i])
}

/// The first position from `i` on at which `pat` stands in `s`, or `-1`.
pub open spec fn found_from(s: Seq<char>, pat: Seq<char>, i: int) -> int
    decreases s.len() + 1 - i,
{
    if i < 0 || i + pat.len() > s.len() {
        -1
    } else if is_at(s, pat, i) {
        i
    } else {
        found_from(s, pat, i + 1)
    }
}

/// `s` cut at every occurrence of `pat`, leftmost first.
pub open spec fn split_at_text(s: Seq<char>, pat: Seq<char>) -> Seq<Seq<char>>
    decreases s.len(),
{
    let i = found_from(s, pat, 0);
    if i < 0 || pat.len() == 0 || i + pat.len() > s.len() {
        seq![s]
    } else {
        seq![s.take(i)] + split_at_text(s.skip(i + pat.len()), pat)
    }
}

/// `s` with every occurrence of `pat`, leftmost first, replaced by `by`.
pub open spec fn replaced(s: Seq<char>, pat: Seq<char>, by: Seq<char>) -> Seq<char> {
    joined(split_at_text(s, pat), by)
}

/// Whether `s` begins with `pat`.
pub open spec fn begins_with(s: Seq<char>, pat: Seq<char>) -> bool {
    is_at(s, pat, 0)
}

/// What follows `pat` at the start of `s`.
pub open spec fn after_prefix(s: Seq<char>, pat: Seq<char>) -> Option<Seq<char>> {
    if begins_with(s, pat) {
        Some(s.skip(pat.len() as int))
    } else {
        None
    }
}

/// What stands before and after the first character of kind `k`.
pub open spec fn cut_once(s: Seq<char>, k: Kind) -> Option<(Seq<char>, Seq<char>)> {
    let i = first_of(s, k) as int;
    if i < s.len() {
        Some((s.take(i), s.skip(i + 1)))
    } else {
        None
    }
}

fn stands_at(s: &Vec<char>, pat: &Vec<char>, i: usize) -> (r: bool)
    ensures
        r == is_at(s@, pat@, i as int),
{
    let n = s.len();
    if pat.len() > n || i > n - pat.len() {
        return false;
    }
    for j in 0..pat.len()
        invariant
            i + pat@.len() <= n,
            n == s@.len(),
            forall|l: int| 0 <= l < j ==> s@[i + l] == pat@[l],
    {
        if s[i + j] != pat[j] {
            assert(s@.subrange(i as int, i + pat@.len())[j as int] != pat@[j as int]);
            return false;
        }
    }
    assert(s@.subrange(i as int, i + pat@.len()) =~= pat@);
    true
}

/// [`found_from`].
fn find_from(s: &Vec<char>, pat: &Vec<char>, from: usize) -> (r: Option<usize>)
    requires
        from <= s@.len(),
    ensures
        match r {
            Some(i) => from <= i && i == found_from(s@, pat@, from as int) && is_at(
                s@,
                pat@,
                i as int,
            ),
            None => found_from(s@, pat@, from as int) == -1,
        },
{
    let mut i: usize = from;
    while i <= s.len() && s.len() - i >= pat.len()
        invariant
            from <= i <= s@.len() + 1,
            found_from(s@, pat@, from as int) == found_from(s@, pat@, i as int),
        decreases s@.len() + 1 - i,
    {
        if stands_at(s, pat, i) {
            return Some(i);
        }
        if i == s.len() {
            assert(found_from(s@, pat@, i + 1) == -1);
            return None;
        }
        i = i + 1;
    }
    None
}

proof fn lemma_has_sub(s: Seq<char>, pat: Seq<char>, i: int)
    requires
        0 <= i,
    ensures
        found_from(s, pat, i) >= 0 ==> is_at(s, pat, found_from(s, pat, i)),
        found_from(s, pat, i) < 0 ==> forall|j: int| i <= j ==> !is_at(s, pat, j),
    decreases s.len() + 1 - i,
{
    if i + pat.len() <= s.len() && !is_at(s, pat, i) {
        lemma_has_sub(s, pat, i + 1);
    }
}

/// [`has_sub`].
pub(crate) fn holds(s: &str, pat: &str) -> (r: bool)
    ensures
        r == has_sub(s@, pat@),
{
    let v = to_chars(s);
    let p = to_chars(pat);
    proof {
        lemma_has_sub(s@, pat@, 0);
    }
    match find_from(&v, &p, 0) {
        Some(i) => {
            assert(is_at(s@, pat@, i as int));
            true
        },
        None => {
            assert forall|i: int| !is_at(s@, pat@, i) by {
                if i >= 0 {
                }
            }
            false
        },
    }
}

/// [`has_any`].
pub(crate) fn holds_any(s: &str, words: &Vec<&'static str>) -> (r: bool)
    ensures
        r == has_any(s@, texts(words@)),
{
    for i in 0..words.len()
        invariant
            forall|j: int| 0 <= j < i ==> !has_sub(s@, #[trigger] words@[j]@),
    {
        if holds(s, words[i]) {
            assert(has_sub(s@, texts(words@)[i as int]));
            return true;
        }
    }
    assert forall|j: int| 0 <= j < texts(words@).len() implies !has_sub(
        s@,
        #[trigger] texts(words@)[j],
    ) by {
        assert(texts(words@)[j] == words@[j]@);
    }
    false
}

/// Whether the text of `s` is one of `words`.
pub(crate) fn is_one_of(s: &str, words: &Vec<&'static str>) -> (r: bool)
    ensures
        r == texts(words@).contains(s@),
{
    for i in 0..words.len()
        invariant
            forall|j: int| 0 <= j < i ==> words@[j]@ != s@,
    {
        if same(words[i], s) {
            assert(texts(words@)[i as int] == s@);
            return true;
        }
    }
    assert forall|j: int| 0 <= j < texts(words@).len() implies texts(words@)[j] != s@ by {
        assert(texts(words@)[j] == words@[j]@);
    }
    false
}

/// [`begins_with`].
pub(crate) fn starts(s: &str, pat: &str) -> (r: bool)
    ensures
        r == begins_with(s@, pat@),
{
    let v = to_chars(s);
    let p = to_chars(pat);
    stands_at(&v, &p, 0)
}

/// [`after_prefix`].
pub(crate) fn strip_prefix(s: &str, pat: &str) -> (r: Option<String>)
    ensures
        opt_text(r) == after_prefix(s@, pat@),
{
    let v = to_chars(s);
    let p = to_chars(pat);
    if stands_at(&v, &p, 0) {
        assert(v@.subrange(p@.len() as int, v@.len() as int) == s@.skip(p@.len() as int));
        Some(from_chars(&v, p.len(), v.len()))
    } else {
        None
    }
}

/// [`cut_once`].
pub(crate) fn split_once(s: &str, k: Kind) -> (r: Option<(String, String)>)
    ensures
        match r {
            Some(p) => cut_once(s@, k) == Some((p.0@, p.1@)),
            None => cut_once(s@, k) is None,
        },
{
    let v = to_chars(s);
    let n = v.len();
    for i in 0..n
        invariant
            n == v@.len(),
            v@ == s@,
            forall|j: int| 0 <= j < i ==> !of_kind(k, #[trigger] v@[j]),
    {
        if char_of_kind(k, v[i]) {
            proof {
                lemma_first_of(s@, k, i as int);
                assert(v@.subrange(0, i as int) == s@.take(i as int));
                assert(v@.subrange(i + 1, n as int) == s@.skip(i + 1));
            }
            return Some((from_chars(&v, 0, i), from_chars(&v, i + 1, n)));
        }
    }
    proof {
        lemma_first_of(s@, k, n as int);
    }
    None
}

/// [`split_at_text`].
pub(crate) fn split_text(s: &str, pat: &str) -> (r: Vec<String>)
    requires
        pat@.len() > 0,
    ensures
        texts(r@) == split_at_text(s@, pat@),
{
    let p = to_chars(pat);
    let mut rest = to_chars(s);
    let mut out: Vec<String> = Vec::new();
    assert(texts(out@) + split_at_text(rest@, pat@) =~= split_at_text(s@, pat@));
    loop
        invariant
            p@ == pat@,
            pat@.len() > 0,
            texts(out@) + split_at_text(rest@, pat@) == split_at_text(s@, pat@),
        decreases rest@.len(),
    {
        let ghost before = texts(out@);
        let ghost whole = rest@;
        match find_from(&rest, &p, 0) {
            None => {
                let n = rest.len();
                let piece = from_chars(&rest, 0, n);
                assert(rest@.subrange(0, n as int) == rest@);
                out.push(piece);
                assert(texts(out@) =~= before.push(piece@));
                assert(texts(out@) =~= before + split_at_text(rest@, pat@));
                return out;
            },
            Some(i) => {
                let n = rest.len();
                let piece = from_chars(&rest, 0, i);
                let tail = from_chars(&rest, i + p.len(), n);
                assert(rest@.subrange(0, i as int) == rest@.take(i as int));
                assert(rest@.subrange(i + p@.len(), n as int) == rest@.skip(i + p@.len()));
                out.push(piece);
                assert(texts(out@) =~= before.push(piece@));
                rest = to_chars(&tail);
                assert(texts(out@) + split_at_text(rest@, pat@) =~= before + split_at_text(
                    whole,
                    pat@,
                ));
            },
        }
    }
}

/// [`replaced`].
pub(crate) fn replace(s: &str, pat: &str, by: &str) -> (r: String)
    requires
        pat@.len() > 0,
    ensures
        r@ == replaced(s@, pat@, by@),
{
    let parts = split_text(s, pat);
    join(&parts, by)
}

// ---------------------------------------------------------------------------
// Case
// ---------------------------------------------------------------------------

/// An ASCII capital as its small letter; any other character as it is.
pub open spec fn ascii_low(c: char) -> char {
    if 'A' <= c <= 'Z' {
        ((c as u8) + 32) as char
    } else {
        c
    }
}

/// Whether two texts are the same but for the case of their ASCII letters.
pub open spec fn same_but_case(a: Seq<char>, b: Seq<char>) -> bool {
    a.len() == b.len() && forall|i: int|
        0 <= i < a.len() ==> ascii_low(#[trigger] a[i]) == ascii_low(b[i])
}

fn ascii_lower(c: char) -> (r: char)
    ensures
        r == ascii_low(c),
{
    if 'A' <= c && c <= 'Z' {
        ((c as u8) + 32) as char
    } else {
        c
    }
}

/// [`same_but_case`].
pub(crate) fn eq_ignore_case(a: &str, b: &str) -> (r: bool)
    ensures
        r == same_but_case(a@, b@),
{
    let x = to_chars(a);
    let y = to_chars(b);
    if x.len() != y.len() {
        return false;
    }
    for i in 0..x.len()
        invariant
            x@ == a@,
            y@ == b@,
            x@.len() == y@.len(),
            forall|j: int| 0 <= j < i ==> ascii_low(#[trigger] x@[j]) == ascii_low(y@[j]),
    {
        if ascii_lower(x[i]) != ascii_lower(y[i]) {
            assert(ascii_low(a@[i as int]) != ascii_low(b@[i as int]));
            return false;
        }
    }
    true
}

// ---------------------------------------------------------------------------
// Words
// ---------------------------------------------------------------------------

/// The words of a text: its lower-case runs of letters and digits.
pub open spec fn words_of(s: Seq<char>) -> Seq<Seq<char>> {
    filled_pieces(lowered(s), Kind::NotAlnum)
}

/// Whether two texts are equal once case, spacing and punctuation are set
/// aside.
pub open spec fn loosely_equal(a: Seq<char>, b: Seq<char>) -> bool {
    words_of(a) == words_of(b)
}

/// Split into lowercase alphanumeric words.
pub fn words(s: &str) -> (r: Vec<String>)
    ensures
        texts(r@) == words_of(s@),
{
    let low = lowercase(s);
    cut_filled(&low, Kind::NotAlnum)
}

/// Whether two lists hold the same texts in the same order.
pub(crate) fn same_list(a: &Vec<String>, b: &Vec<String>) -> (r: bool)
    ensures
        r == (texts(a@) == texts(b@)),
{
    if a.len() != b.len() {
        assert(texts(a@).len() != texts(b@).len());
        return false;
    }
    for i in 0..a.len()
        invariant
            a@.len() == b@.len(),
            forall|j: int| 0 <= j < i ==> a@[j]@ == b@[j]@,
    {
        if !same(&a[i], &b[i]) {
            assert(texts(a@)[i as int] != texts(b@)[i as int]);
            return false;
        }
    }
    assert(texts(a@) =~= texts(b@));
    true
}

/// Equal once case, spacing and punctuation are set aside.
pub fn loose_eq(a: &str, b: &str) -> (r: bool)
    ensures
        r == loosely_equal(a@, b@),
{
    let x = words(a);
    let y = words(b);
    same_list(&x, &y)
}

// ---------------------------------------------------------------------------
// Numbers
// ---------------------------------------------------------------------------

/// The decimal digit for a number below ten.
pub open spec fn digit(n: nat) -> char {
    if n == 0 {
        '0'
    } else if n == 1 {
        '1'
    } else if n == 2 {
        '2'
    } else if n == 3 {
        '3'
    } else if n == 4 {
        '4'
    } else if n == 5 {
        '5'
    } else if n == 6 {
        '6'
    } else if n == 7 {
        '7'
    } else if n == 8 {
        '8'
    } else {
        '9'
    }
}

/// A number written in decimal.
pub open spec fn decimal(n: nat) -> Seq<char>
    decreases n,
{
    if n < 10 {
        seq![digit(n)]
    } else {
        decimal(n / 10).push(digit(n % 10))
    }
}

pub(crate) fn digit_char(n: u64) -> (r: char)
    requires
        n < 10,
    ensures
        r == digit(n as nat),
{
    if n == 0 {
        '0'
    } else if n == 1 {
        '1'
    } else if n == 2 {
        '2'
    } else if n == 3 {
        '3'
    } else if n == 4 {
        '4'
    } else if n == 5 {
        '5'
    } else if n == 6 {
        '6'
    } else if n == 7 {
        '7'
    } else if n == 8 {
        '8'
    } else {
        '9'
    }
}

/// [`decimal`].
pub(crate) fn number(n: u64) -> (r: String)
    ensures
        r@ == decimal(n as nat),
    decreases n,
{
    if n < 10 {
        let mut s = String::new();
        s.push(digit_char(n));
        assert(s@ =~= seq![digit(n as nat)]);
        s
    } else {
        let mut s = number(n / 10);
        s.push(digit_char(n % 10));
        s
    }
}

/// [`decimal`], of a length or a count.
pub(crate) fn count_text(n: usize) -> (r: String)
    ensures
        r@ == decimal(n as nat),
{
    number(n as u64)
}

// ---------------------------------------------------------------------------
// Cutting short and filling up
// ---------------------------------------------------------------------------

/// The first `n` characters of `s`, or all of them where there are fewer.
pub open spec fn head(s: Seq<char>, n: nat) -> Seq<char> {
    if s.len() <= n {
        s
    } else {
        s.take(n as int)
    }
}

/// [`head`].
pub(crate) fn first_chars(s: &str, n: usize) -> (r: String)
    ensures
        r@ == head(s@, n as nat),
{
    let v = to_chars(s);
    if v.len() <= n {
        own(s)
    } else {
        assert(v@.subrange(0, n as int) == s@.take(n as int));
        from_chars(&v, 0, n)
    }
}

/// `s` with blanks after it up to a width of `n` characters.
pub open spec fn padded(s: Seq<char>, n: nat) -> Seq<char>
    decreases n - s.len(),
{
    if s.len() < n {
        padded(s.push(' '), n)
    } else {
        s
    }
}

/// [`padded`].
pub(crate) fn pad(s: &str, n: usize) -> (r: String)
    ensures
        r@ == padded(s@, n as nat),
{
    let mut out = own(s);
    let mut len = s.unicode_len();
    while len < n
        invariant
            len == out@.len(),
            padded(out@, n as nat) == padded(s@, n as nat),
        decreases n - len,
    {
        out.push(' ');
        len = len + 1;
    }
    out
}

// ---------------------------------------------------------------------------
// Bytes
// ---------------------------------------------------------------------------

/// How many bytes a text takes up.
pub open spec fn byte_len(s: Seq<char>) -> nat {
    vstd::utf8::encode_utf8(s).len()
}

/// [`byte_len`].
pub(crate) fn bytes_in(s: &str) -> (r: usize)
    ensures
        r == byte_len(s@),
{
    s.as_bytes().len()
}

// ---------------------------------------------------------------------------
// Laws
// ---------------------------------------------------------------------------

/// Of the ASCII characters six are blanks, the letters and digits are told apart
/// from the rest, and only a capital has another small letter: the one that
/// stands thirty-two places behind it.
pub proof fn law_ascii_is_told_apart(c: char)
    requires
        (c as u32) < 128,
    ensures
        is_space(c) <==> c == ' ' || c == '\t' || c == '\n' || c == '\r' || (c as u32) == 11 || (
        c as u32) == 12,
        is_alnum(c) <==> '0' <= c <= '9' || 'A' <= c <= 'Z' || 'a' <= c <= 'z',
        'A' <= c <= 'Z' ==> ascii_low(c) as u32 == c as u32 + 32,
        !('A' <= c <= 'Z') ==> ascii_low(c) == c,
        lowered_char(c) == seq![ascii_low(c)],
{
}

/// Past ASCII, what is a blank, a letter or digit, and a small letter is as the
/// standard library has it, and the case of ASCII letters is not touched.
pub proof fn law_the_rest_is_as_unicode_has_it(c: char)
    requires
        (c as u32) >= 128,
    ensures
        is_space(c) == unicode_space(c),
        is_alnum(c) == unicode_alnum(c),
        lowered_char(c) == unicode_lowered_char(c),
        ascii_low(c) == c,
{
}

/// What the kinds of character hold.
pub proof fn law_kinds_of_character(c: char)
    ensures
        of_kind(Kind::Space, c) <==> is_space(c),
        of_kind(Kind::NotAlnum, c) <==> !is_alnum(c),
        of_kind(Kind::Quote, c) <==> of_kind(Kind::Apostrophe, c) || of_kind(Kind::DoubleQuote, c),
        of_kind(Kind::Apostrophe, c) <==> c == '\'',
        of_kind(Kind::DoubleQuote, c) <==> c == '"',
        of_kind(Kind::Comma, c) <==> c == ',',
        of_kind(Kind::Newline, c) <==> c == '\n',
        of_kind(Kind::Colon, c) <==> c == ':',
        of_kind(Kind::Dash, c) <==> c == '-' || c == '_',
{
}

proof fn lemma_strip_start(s: Seq<char>, k: Kind) -> (i: int)
    ensures
        0 <= i <= s.len(),
        strip_start(s, k) == s.skip(i),
        forall|j: int| 0 <= j < i ==> of_kind(k, #[trigger] s[j]),
        i < s.len() ==> !of_kind(k, s[i]),
    decreases s.len(),
{
    if s.len() > 0 && of_kind(k, s[0]) {
        let t = s.drop_first();
        let i = lemma_strip_start(t, k);
        assert(t.skip(i) == s.skip(i + 1));
        assert forall|j: int| 0 <= j < i + 1 implies of_kind(k, #[trigger] s[j]) by {
            if j > 0 {
                assert(s[j] == t[j - 1]);
            }
        }
        i + 1
    } else {
        assert(s.skip(0) == s);
        0
    }
}

proof fn lemma_strip_end(s: Seq<char>, k: Kind) -> (i: int)
    ensures
        0 <= i <= s.len(),
        strip_end(s, k) == s.take(i),
        forall|j: int| i <= j < s.len() ==> of_kind(k, #[trigger] s[j]),
        i > 0 ==> !of_kind(k, s[i - 1]),
    decreases s.len(),
{
    if s.len() > 0 && of_kind(k, s.last()) {
        let t = s.drop_last();
        let i = lemma_strip_end(t, k);
        assert(t.take(i) == s.take(i));
        assert forall|j: int| i <= j < s.len() implies of_kind(k, #[trigger] s[j]) by {
            if j < t.len() {
                assert(s[j] == t[j]);
            }
        }
        i
    } else {
        assert(s.take(s.len() as int) == s);
        s.len() as int
    }
}

/// What is stripped round a text is of the kind, and what is left neither starts
/// nor ends with the kind: for a text that does not, between any characters of
/// the kind, that text is left.
pub proof fn law_stripping_takes_the_kind_only(
    before: Seq<char>,
    core: Seq<char>,
    after: Seq<char>,
    k: Kind,
)
    requires
        forall|i: int| 0 <= i < before.len() ==> of_kind(k, #[trigger] before[i]),
        forall|i: int| 0 <= i < after.len() ==> of_kind(k, #[trigger] after[i]),
        core.len() > 0 ==> !of_kind(k, core[0]) && !of_kind(k, core.last()),
    ensures
        stripped(before + core + after, k) == core,
        trimmed(before + core + after) == stripped(before + core + after, Kind::Space),
{
    let s = before + core + after;
    let i = lemma_strip_start(s, k);
    let t = s.skip(i);
    let e = lemma_strip_end(t, k);
    if core.len() == 0 {
        if i < s.len() {
            if i < before.len() {
                assert(s[i] == before[i]);
            } else {
                assert(s[i] == after[i - before.len()]);
            }
        }
        assert(t.take(e) == core);
    } else {
        assert(s[before.len() as int] == core[0]);
        if i < before.len() {
            assert(s[i] == before[i]);
        }
        assert(i == before.len());
        assert(t == core + after);
        let last = core.len() - 1;
        assert(t[last] == core.last());
        if e > core.len() {
            assert(t[e - 1] == after[e - 1 - core.len()]);
        }
        if e <= last {
            assert(of_kind(k, t[last]));
        }
        assert(e == core.len());
        assert(t.take(e) == core);
    }
}

/// A text is blank exactly where it holds nothing but blanks.
pub proof fn law_blank_is_blanks_only(s: Seq<char>)
    ensures
        is_blank_text(s) <==> forall|i: int| 0 <= i < s.len() ==> is_space(#[trigger] s[i]),
{
    let i = lemma_strip_start(s, Kind::Space);
    let t = s.skip(i);
    let e = lemma_strip_end(t, Kind::Space);
    if i < s.len() {
        assert(t[0] == s[i]);
        if e == 0 {
            assert(of_kind(Kind::Space, t[0]));
        }
        assert(!is_space(s[i]));
    } else {
        assert forall|j: int| 0 <= j < s.len() implies is_space(#[trigger] s[j]) by {
            assert(of_kind(Kind::Space, s[j]));
        }
    }
}

/// A text without a character of the kind is one piece; a character of the kind
/// parts what stands before it from what stands behind it. With the two, the
/// pieces of every text are given.
pub proof fn law_pieces_are_what_stands_between(
    a: Seq<char>,
    c: char,
    b: Seq<char>,
    k: Kind,
)
    requires
        forall|i: int| 0 <= i < a.len() ==> !of_kind(k, #[trigger] a[i]),
        of_kind(k, c),
    ensures
        pieces(a, k) == seq![a],
        pieces(a + seq![c] + b, k) == seq![a] + pieces(b, k),
        cut_once(a, k) is None,
        cut_once(a + seq![c] + b, k) == Some((a, b)),
{
    lemma_first_of(a, k, a.len() as int);
    let s = a + seq![c] + b;
    assert forall|i: int| 0 <= i < a.len() implies !of_kind(k, #[trigger] s[i]) by {
        assert(s[i] == a[i]);
    }
    assert(s[a.len() as int] == c);
    lemma_first_of(s, k, a.len() as int);
    assert(s.take(a.len() as int) == a);
    assert(s.skip(a.len() as int + 1) == b);
}

/// The filled pieces are the pieces that hold something, each of them, and no
/// others.
pub proof fn law_filled_pieces_hold_something(s: Seq<char>, k: Kind, p: Seq<char>)
    ensures
        filled_pieces(s, k).contains(p) <==> pieces(s, k).contains(p) && p.len() > 0,
        filled_pieces(s, k) == filled(pieces(s, k)),
{
    lemma_kept(pieces(s, k), p);
}

proof fn lemma_kept(v: Seq<Seq<char>>, p: Seq<char>)
    ensures
        filled(v).contains(p) <==> v.contains(p) && p.len() > 0,
    decreases v.len(),
{
    reveal(Seq::filter);
    if v.len() > 0 {
        let init = v.drop_last();
        lemma_kept(init, p);
        let before = filled(init);
        let after = filled(v);
        if before.contains(p) {
            let k = choose|k: int| 0 <= k < before.len() && before[k] == p;
            assert(after[k] == p);
            let i = choose|i: int| 0 <= i < init.len() && init[i] == p;
            assert(v[i] == p);
        }
        if after.contains(p) && !before.contains(p) {
            let k = choose|k: int| 0 <= k < after.len() && after[k] == p;
            if k < before.len() {
                assert(before[k] == p);
            }
            assert(v[v.len() - 1] == p);
        }
        if v.contains(p) && p.len() > 0 {
            let i = choose|i: int| 0 <= i < v.len() && v[i] == p;
            if i < init.len() {
                assert(init[i] == p);
            } else {
                assert(after[after.len() - 1] == p);
            }
        }
    }
}

/// What is left of two rows of texts is what is left of the one, then what is
/// left of the other.
pub proof fn law_what_is_filled_stays_in_order(a: Seq<Seq<char>>, b: Seq<Seq<char>>)
    ensures
        filled(a + b) == filled(a) + filled(b),
{
    Seq::filter_distributes_over_add(a, b, |p: Seq<char>| p.len() > 0);
}

/// Putting texts together: none give nothing, one gives itself, and two rows of
/// them are the one, the separator, and the other.
pub proof fn law_texts_are_put_together(
    a: Seq<Seq<char>>,
    b: Seq<Seq<char>>,
    t: Seq<char>,
    sep: Seq<char>,
)
    ensures
        joined(Seq::empty(), sep).len() == 0,
        joined(seq![t], sep) == t,
        a.len() > 0 && b.len() > 0 ==> joined(a + b, sep) == joined(a, sep) + sep + joined(b, sep),
    decreases b.len(),
{
    if a.len() > 0 && b.len() > 0 {
        assert((a + b).drop_last() == a + b.drop_last());
        assert((a + b).last() == b.last());
        if b.len() == 1 {
            assert(a + b.drop_last() == a);
        } else {
            law_texts_are_put_together(a, b.drop_last(), t, sep);
            assert(joined(a, sep) + sep + joined(b.drop_last(), sep) + sep + b.last() == joined(
                a,
                sep,
            ) + sep + (joined(b.drop_last(), sep) + sep + b.last()));
        }
    }
}

/// A text holds another exactly where the other stands in it, with something or
/// nothing on either side.
pub proof fn law_what_a_text_holds(s: Seq<char>, pat: Seq<char>, a: Seq<char>, b: Seq<char>)
    ensures
        s == a + pat + b ==> has_sub(s, pat),
        has_sub(s, pat) ==> exists|i: int|
            0 <= i && i + pat.len() <= s.len() && #[trigger] s.take(i) + pat + s.skip(
                i + pat.len(),
            ) == s,
        begins_with(s, pat) <==> s == pat + s.skip(pat.len() as int) && pat.len() <= s.len(),
{
    if s == a + pat + b {
        assert(s.subrange(a.len() as int, (a.len() + pat.len()) as int) == pat);
        assert(is_at(s, pat, a.len() as int));
    }
    if has_sub(s, pat) {
        let i = choose|i: int| is_at(s, pat, i);
        assert(s.take(i) + pat + s.skip(i + pat.len()) == s);
    }
    if begins_with(s, pat) {
        assert(s == s.subrange(0, pat.len() as int) + s.skip(pat.len() as int));
    }
    if s == pat + s.skip(pat.len() as int) && pat.len() <= s.len() {
        let rest = s.skip(pat.len() as int);
        assert((pat + rest).subrange(0, pat.len() as int) == pat);
    }
}

/// What follows a prefix is the rest, and what does not start with it has none.
pub proof fn law_what_follows_a_prefix(s: Seq<char>, pat: Seq<char>, rest: Seq<char>)
    ensures
        after_prefix(pat + rest, pat) == Some(rest),
        after_prefix(s, pat) matches Some(r) ==> s == pat + r,
{
    assert((pat + rest).subrange(0, pat.len() as int) == pat);
    assert((pat + rest).skip(pat.len() as int) == rest);
    if begins_with(s, pat) {
        assert(s == s.subrange(0, pat.len() as int) + s.skip(pat.len() as int));
    }
}

/// Splitting a text at another loses nothing: put together with it, the parts
/// are the text. No part but the last can be told to go on: none holds what it
/// was split at. A text that does not hold it is one part.
pub proof fn law_splitting_loses_nothing(s: Seq<char>, pat: Seq<char>)
    requires
        pat.len() > 0,
    ensures
        joined(split_at_text(s, pat), pat) == s,
        split_at_text(s, pat).len() > 0,
        forall|i: int|
            0 <= i < split_at_text(s, pat).len() ==> !has_sub(
                #[trigger] split_at_text(s, pat)[i],
                pat,
            ),
        replaced(s, pat, pat) == s,
        !has_sub(s, pat) ==> split_at_text(s, pat) == seq![s],
    decreases s.len(),
{
    let i = found_from(s, pat, 0);
    lemma_has_sub(s, pat, 0);
    if i < 0 {
        assert(joined(seq![s], pat) == s);
        assert forall|j: int| !is_at(s, pat, j) by {
            if j >= 0 {
                assert(!is_at(s, pat, j));
            }
        }
    } else {
        lemma_found_first(s, pat, 0);
        let head = s.take(i);
        let rest = s.skip(i + pat.len());
        law_splitting_loses_nothing(rest, pat);
        let parts = split_at_text(rest, pat);
        law_texts_are_put_together(seq![head], parts, head, pat);
        assert(head + pat + rest == s);
        assert(is_at(s, pat, i));
        assert forall|j: int| !is_at(head, pat, j) by {
            if is_at(head, pat, j) {
                assert(head.subrange(j, j + pat.len()) == s.subrange(j, j + pat.len()));
                assert(is_at(s, pat, j));
            }
        }
        let all = split_at_text(s, pat);
        assert forall|n: int| 0 <= n < all.len() implies !has_sub(#[trigger] all[n], pat) by {
            if n > 0 {
                assert(all[n] == parts[n - 1]);
            }
        }
    }
}

proof fn lemma_found_first(s: Seq<char>, pat: Seq<char>, i: int)
    requires
        0 <= i,
        found_from(s, pat, i) >= 0,
    ensures
        i <= found_from(s, pat, i),
        is_at(s, pat, found_from(s, pat, i)),
        forall|j: int| i <= j < found_from(s, pat, i) ==> !is_at(s, pat, j),
    decreases s.len() + 1 - i,
{
    if i + pat.len() <= s.len() && !is_at(s, pat, i) {
        lemma_found_first(s, pat, i + 1);
    }
}

/// What is put in the place of another goes where that other first stands, and
/// then on behind it; a text that does not hold it stays as it is.
pub proof fn law_each_place_is_replaced(s: Seq<char>, pat: Seq<char>, by: Seq<char>, i: int)
    requires
        pat.len() > 0,
    ensures
        !has_sub(s, pat) ==> replaced(s, pat, by) == s,
        is_at(s, pat, i) && (forall|j: int| 0 <= j < i ==> !is_at(s, pat, j)) ==> replaced(
            s,
            pat,
            by,
        ) == s.take(i) + by + replaced(s.skip(i + pat.len()), pat, by),
{
    law_splitting_loses_nothing(s, pat);
    if is_at(s, pat, i) && (forall|j: int| 0 <= j < i ==> !is_at(s, pat, j)) {
        lemma_has_sub(s, pat, 0);
        lemma_found_first(s, pat, 0);
        let rest = s.skip(i + pat.len());
        law_splitting_loses_nothing(rest, pat);
        law_texts_are_put_together(seq![s.take(i)], split_at_text(rest, pat), s.take(i), by);
    }
}

/// Texts are the same but for case exactly where they are as long as each other
/// and differ in ASCII letters of one name only; for ASCII texts, exactly where
/// they are the same in small letters.
pub proof fn law_the_same_but_for_case(a: Seq<char>, b: Seq<char>, c: Seq<char>)
    ensures
        same_but_case(a, a),
        same_but_case(a, b) ==> same_but_case(b, a),
        same_but_case(a, b) && same_but_case(b, c) ==> same_but_case(a, c),
        same_but_case(a, b) ==> a.len() == b.len(),
        a.len() == b.len() && (forall|i: int|
            0 <= i < a.len() ==> #[trigger] a[i] == b[i] || 'A' <= a[i] <= 'Z' && b[i] as u32
                == a[i] as u32 + 32 || 'A' <= b[i] <= 'Z' && a[i] as u32 == b[i] as u32 + 32)
            <==> same_but_case(a, b),
        all_ascii(a) && all_ascii(b) ==> (same_but_case(a, b) <==> lowered(a) == lowered(b)),
        !all_ascii(a) ==> lowered(a) == unicode_lowered(a),
{
    if same_but_case(a, b) {
        assert forall|i: int| 0 <= i < a.len() implies #[trigger] a[i] == b[i] || 'A' <= a[i]
            <= 'Z' && b[i] as u32 == a[i] as u32 + 32 || 'A' <= b[i] <= 'Z' && a[i] as u32
            == b[i] as u32 + 32 by {
            assert(ascii_low(a[i]) == ascii_low(b[i]));
        }
    }
    if all_ascii(a) && all_ascii(b) && lowered(a) == lowered(b) {
        assert(lowered(a).len() == a.len());
        assert forall|i: int| 0 <= i < a.len() implies ascii_low(#[trigger] a[i]) == ascii_low(
            b[i],
        ) by {
            assert(lowered(a)[i] == lowered(b)[i]);
        }
    }
    if all_ascii(a) && all_ascii(b) && same_but_case(a, b) {
        assert(lowered(a) == lowered(b));
    }
}

/// A text's words are the runs of letters and digits in its small letters, and
/// two texts are loosely equal exactly where they have the same words in the same
/// order.
pub proof fn law_words_are_runs_of_letters(a: Seq<char>, b: Seq<char>, w: Seq<char>)
    ensures
        words_of(a).contains(w) <==> pieces(lowered(a), Kind::NotAlnum).contains(w) && w.len() > 0,
        loosely_equal(a, b) <==> words_of(a) == words_of(b),
        lowered(a) == lowered(b) ==> loosely_equal(a, b),
{
    law_filled_pieces_hold_something(lowered(a), Kind::NotAlnum, w);
}

/// The number a row of decimal digits says.
pub open spec fn said_by(s: Seq<char>) -> nat
    decreases s.len(),
{
    if s.len() == 0 {
        0
    } else {
        said_by(s.drop_last()) * 10 + (s.last() as nat - 48) as nat
    }
}

/// A number written in decimal says that number, in digits alone, and does not
/// start with a nought unless it is nought.
pub proof fn law_a_number_is_written_as_it_is(n: nat)
    ensures
        said_by(decimal(n)) == n,
        decimal(n).len() > 0,
        forall|i: int| 0 <= i < decimal(n).len() ==> '0' <= #[trigger] decimal(n)[i] <= '9',
        n > 0 ==> decimal(n)[0] != '0',
    decreases n,
{
    if n >= 10 {
        law_a_number_is_written_as_it_is(n / 10);
        let before = decimal(n / 10);
        let all = decimal(n);
        assert(all.drop_last() == before);
        assert forall|i: int| 0 <= i < all.len() implies '0' <= #[trigger] all[i] <= '9' by {
            if i < before.len() {
                assert(all[i] == before[i]);
            }
        }
        assert(all[0] == before[0]);
    } else {
        assert(decimal(n).drop_last().len() == 0);
        assert(said_by(decimal(n).drop_last()) == 0);
    }
}

/// A text's head is its beginning, as long as asked for where there is enough of
/// it; a padded text is the text and blanks up to the width, and a wider one is
/// left as it is.
pub proof fn law_heads_and_padding(s: Seq<char>, n: nat, i: int)
    ensures
        head(s, n).len() == (if s.len() < n {
            s.len()
        } else {
            n
        }),
        0 <= i < head(s, n).len() ==> head(s, n)[i] == s[i],
        padded(s, n).len() == (if s.len() < n {
            n
        } else {
            s.len()
        }),
        0 <= i < s.len() ==> padded(s, n)[i] == s[i],
        s.len() <= i < n ==> padded(s, n)[i] == ' ',
    decreases n - s.len(),
{
    if s.len() < n {
        law_heads_and_padding(s.push(' '), n, i);
    }
}

/// A text holds one of some others exactly where it holds any of them, wherever
/// in the row that stands.
pub proof fn law_one_of_them_is_enough(
    s: Seq<char>,
    a: Seq<Seq<char>>,
    w: Seq<char>,
    b: Seq<Seq<char>>,
)
    ensures
        has_any(s, a + seq![w] + b) <==> has_any(s, a) || has_sub(s, w) || has_any(s, b),
        !has_any(s, Seq::empty()),
{
    let all = a + seq![w] + b;
    if has_any(s, all) {
        let i = choose|i: int| 0 <= i < all.len() && has_sub(s, #[trigger] all[i]);
        if i < a.len() {
            assert(all[i] == a[i]);
        } else if i > a.len() {
            assert(all[i] == b[i - a.len() - 1]);
        }
    }
    assert(all[a.len() as int] == w);
    assert forall|i: int| 0 <= i < a.len() && has_sub(s, #[trigger] a[i]) implies has_any(
        s,
        all,
    ) by {
        assert(all[i] == a[i]);
    }
    assert forall|i: int| 0 <= i < b.len() && has_sub(s, #[trigger] b[i]) implies has_any(
        s,
        all,
    ) by {
        assert(all[a.len() + 1 + i] == b[i]);
    }
}

/// A text's length in bytes is that of its encoding, not the number of its
/// characters.
pub proof fn law_bytes_are_not_characters(s: Seq<char>)
    ensures
        byte_len(s) == vstd::utf8::encode_utf8(s).len(),
{
}

} // verus!
