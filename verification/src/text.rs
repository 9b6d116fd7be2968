//! Text as sequences of characters: searching, splitting, trimming and building strings.
use vstd::prelude::*;

verus! {

/// `String::push` appends one character.
pub assume_specification[ String::push ](s: &mut String, c: char)
    ensures
        final(s)@ == old(s)@.push(c),
;

/// Whether a character is white space: it has the property `White_Space` of Unicode.
pub open spec fn is_space(c: char) -> bool {
    let n = c as u32;
    ||| 0x9 <= n <= 0xd
    ||| n == 0x20
    ||| n == 0x85
    ||| n == 0xa0
    ||| n == 0x1680
    ||| 0x2000 <= n <= 0x200a
    ||| n == 0x2028
    ||| n == 0x2029
    ||| n == 0x202f
    ||| n == 0x205f
    ||| n == 0x3000
}

/// Whether `char::is_alphanumeric` holds of a character.
pub uninterp spec fn is_alphanumeric(c: char) -> bool;

/// The text that `str::to_lowercase` makes of a text.
pub uninterp spec fn lowercase(s: Seq<char>) -> Seq<char>;

/// Calls `char::is_whitespace`: it holds of the characters with the property `White_Space`, and of
/// no others.
#[verifier::external_body]
fn char_is_space(c: char) -> (r: bool)
    ensures
        r == is_space(c),
{
    c.is_whitespace()
}

/// Calls `char::is_alphanumeric`, whose Unicode table goes by the name `is_alphanumeric`.
#[verifier::external_body]
fn char_is_alphanumeric(c: char) -> (r: bool)
    ensures
        r == is_alphanumeric(c),
{
    c.is_alphanumeric()
}

/// Calls `str::to_lowercase`, whose Unicode mapping goes by the name `lowercase`. That it leaves
/// its own results as they are is not claimed.
#[verifier::external_body]
pub(crate) fn to_lowercase(s: &str) -> (r: String)
    ensures
        r@ == lowercase(s@),
{
    s.to_lowercase()
}

/// The texts of a sequence of strings.
pub open spec fn views(v: Seq<String>) -> Seq<Seq<char>> {
    v.map_values(|s: String| s@)
}

/// The text of a string, where there is one.
pub open spec fn opt_view(s: Option<String>) -> Option<Seq<char>> {
    match s {
        Some(s) => Some(s@),
        None => None,
    }
}

/// A text, or another where there is none.
pub open spec fn text_or(s: Option<Seq<char>>, other: Seq<char>) -> Seq<char> {
    match s {
        Some(s) => s,
        None => other,
    }
}

/// A copy of a string, where there is one.
pub fn copy_opt(s: &Option<String>) -> (r: Option<String>)
    ensures
        r == *s,
{
    match s {
        Some(s) => Some(s.clone()),
        None => None,
    }
}

/// The characters of a text, as a vector.
pub fn chars_of(s: &str) -> (r: Vec<char>)
    ensures
        r@ == s@,
{
    let mut out: Vec<char> = Vec::new();
    for c in it: s.chars()
        invariant
            out@ == it.seq().take(it.index() as int),
            it.seq() == s@,
    {
        out.push(c);
    }
    out
}

/// The text between two positions of a vector of characters.
pub fn slice(chars: &Vec<char>, from: usize, to: usize) -> (r: String)
    requires
        from <= to <= chars@.len(),
    ensures
        r@ == chars@.subrange(from as int, to as int),
{
    let mut out = String::new();
    for i in from..to
        invariant
            from <= to <= chars@.len(),
            out@ == chars@.subrange(from as int, i as int),
    {
        out.push(chars[i]);
    }
    out
}

/// Whether two texts hold the same characters.
pub fn same(a: &str, b: &str) -> (r: bool)
    ensures
        r == (a@ == b@),
{
    let x = a.as_bytes();
    let y = b.as_bytes();
    if x.len() != y.len() {
        return false;
    }
    for i in 0..x.len()
        invariant
            x@ == vstd::utf8::encode_utf8(a@),
            y@ == vstd::utf8::encode_utf8(b@),
            x@.len() == y@.len(),
            forall|k: int| 0 <= k < i ==> x@[k] == y@[k],
    {
        if x[i] != y[i] {
            return false;
        }
    }
    assert(x@ =~= y@);
    proof {
        vstd::utf8::encode_utf8_decode_utf8(a@);
        vstd::utf8::encode_utf8_decode_utf8(b@);
    }
    true
}

/// Whether `list` holds the text `item`.
pub fn holds(list: &Vec<String>, item: &str) -> (r: bool)
    ensures
        r == views(list@).contains(item@),
{
    for i in 0..list.len()
        invariant
            forall|k: int| 0 <= k < i ==> #[trigger] views(list@)[k] != item@,
    {
        if same(list[i].as_str(), item) {
            assert(views(list@)[i as int] == item@);
            return true;
        }
    }
    false
}

/// A copy of a list of strings.
pub fn copy_all(list: &Vec<String>) -> (r: Vec<String>)
    ensures
        r@ == list@,
{
    let mut out: Vec<String> = Vec::new();
    for i in 0..list.len()
        invariant
            out@ == list@.take(i as int),
    {
        out.push(list[i].clone());
    }
    out
}

/// The number of bytes of a text in UTF-8.
pub open spec fn byte_len(s: Seq<char>) -> nat {
    vstd::utf8::encode_utf8(s).len()
}

/// The number of bytes of a text in UTF-8.
pub fn bytes_in(s: &str) -> (r: usize)
    ensures
        r == byte_len(s@),
{
    s.as_bytes().len()
}

/// A set of characters at which a text is split or trimmed.
#[derive(Clone, Copy)]
pub enum CharClass {
    /// The one character.
    Is(char),
    /// `/` and `.`.
    SlashOrDot,
    /// White space.
    Space,
    /// Everything but letters and digits.
    NotAlphanumeric,
}

impl CharClass {
    /// Whether the class holds `c`.
    pub open spec fn has(self, c: char) -> bool {
        match self {
            CharClass::Is(d) => c == d,
            CharClass::SlashOrDot => c == '/' || c == '.',
            CharClass::Space => is_space(c),
            CharClass::NotAlphanumeric => !is_alphanumeric(c),
        }
    }

    /// Whether the class holds `c`.
    pub fn test(&self, c: char) -> (r: bool)
        ensures
            r == self.has(c),
    {
        match self {
            CharClass::Is(d) => c == *d,
            CharClass::SlashOrDot => c == '/' || c == '.',
            CharClass::Space => char_is_space(c),
            CharClass::NotAlphanumeric => !char_is_alphanumeric(c),
        }
    }
}

/// The pieces of `s` between the characters of `class`; empty pieces are kept.
pub open spec fn split_by(s: Seq<char>, class: CharClass) -> Seq<Seq<char>>
    decreases s.len(),
{
    if s.len() == 0 {
        seq![Seq::<char>::empty()]
    } else {
        let before = split_by(s.drop_last(), class);
        if class.has(s.last()) {
            before.push(Seq::<char>::empty())
        } else {
            before.drop_last().push(before.last().push(s.last()))
        }
    }
}

/// Splits `s` at the characters of `class`.
pub fn split(s: &str, class: CharClass) -> (r: Vec<String>)
    ensures
        views(r@) == split_by(s@, class),
{
    let chars = chars_of(s);
    let mut done: Vec<String> = Vec::new();
    let mut current = String::new();
    for i in 0..chars.len()
        invariant
            split_by(chars@.take(i as int), class) == views(done@).push(current@),
    {
        proof {
            assert(chars@.take(i + 1).drop_last() =~= chars@.take(i as int));
            assert(chars@.take(i + 1).last() == chars@[i as int]);
        }
        if class.test(chars[i]) {
            let ghost piece = current@;
            let ghost before = views(done@);
            done.push(current);
            current = String::new();
            assert(views(done@) =~= before.push(piece));
        } else {
            current.push(chars[i]);
        }
    }
    assert(chars@.take(chars@.len() as int) =~= chars@);
    let ghost piece = current@;
    let ghost before = views(done@);
    done.push(current);
    assert(views(done@) =~= before.push(piece));
    done
}

/// The pieces of `s` between the characters of `class` that are not empty.
pub open spec fn pieces(s: Seq<char>, class: CharClass) -> Seq<Seq<char>> {
    split_by(s, class).filter(|p: Seq<char>| p.len() > 0)
}

/// The pieces of `s` between the characters of `class`, without the empty ones.
pub fn split_pieces(s: &str, class: CharClass) -> (r: Vec<String>)
    ensures
        views(r@) == pieces(s@, class),
{
    let all = split(s, class);
    let ghost keep = |p: Seq<char>| p.len() > 0;
    let mut out: Vec<String> = Vec::new();
    proof {
        reveal(Seq::filter);
    }
    for i in 0..all.len()
        invariant
            views(out@) == views(all@).take(i as int).filter(keep),
            keep == (|p: Seq<char>| p.len() > 0),
    {
        reveal(Seq::filter);
        proof {
            assert(views(all@).take(i + 1).drop_last() =~= views(all@).take(i as int));
        }
        let ghost before = views(out@);
        if all[i].as_str().unicode_len() > 0 {
            out.push(all[i].clone());
            assert(views(out@) =~= before.push(all@[i as int]@));
        }
    }
    assert(views(all@).take(all@.len() as int) =~= views(all@));
    out
}

/// `s` without the characters of `class` at its start.
pub open spec fn trim_start_by(s: Seq<char>, class: CharClass) -> Seq<char>
    decreases s.len(),
{
    if s.len() > 0 && class.has(s[0]) {
        trim_start_by(s.drop_first(), class)
    } else {
        s
    }
}

/// `s` without the characters of `class` at its end.
pub open spec fn trim_end_by(s: Seq<char>, class: CharClass) -> Seq<char>
    decreases s.len(),
{
    if s.len() > 0 && class.has(s.last()) {
        trim_end_by(s.drop_last(), class)
    } else {
        s
    }
}

/// `s` without the characters of `class` at either end.
pub open spec fn trim_by(s: Seq<char>, class: CharClass) -> Seq<char> {
    trim_end_by(trim_start_by(s, class), class)
}

/// Removes the characters of `class` from both ends of `s`.
pub fn trim(s: &str, class: CharClass) -> (r: String)
    ensures
        r@ == trim_by(s@, class),
{
    let chars = chars_of(s);
    let mut lo: usize = 0;
    assert(chars@.skip(0) =~= chars@);
    while lo < chars.len() && class.test(chars[lo])
        invariant
            lo <= chars@.len(),
            trim_start_by(chars@, class) == trim_start_by(chars@.skip(lo as int), class),
        decreases chars@.len() - lo,
    {
        assert(chars@.skip(lo as int).drop_first() =~= chars@.skip(lo + 1));
        lo += 1;
    }
    let mut hi: usize = chars.len();
    assert(chars@.subrange(lo as int, hi as int) =~= chars@.skip(lo as int));
    while hi > lo && class.test(chars[hi - 1])
        invariant
            lo <= hi <= chars@.len(),
            trim_by(chars@, class) == trim_end_by(chars@.subrange(lo as int, hi as int), class),
        decreases hi,
    {
        assert(chars@.subrange(lo as int, hi as int).drop_last() =~= chars@.subrange(
            lo as int,
            hi - 1,
        ));
        hi -= 1;
    }
    slice(&chars, lo, hi)
}

/// `s` without the characters of `class` at its start.
pub fn trim_start(s: &str, class: CharClass) -> (r: String)
    ensures
        r@ == trim_start_by(s@, class),
{
    let chars = chars_of(s);
    let mut lo: usize = 0;
    assert(chars@.skip(0) =~= chars@);
    while lo < chars.len() && class.test(chars[lo])
        invariant
            lo <= chars@.len(),
            trim_start_by(chars@, class) == trim_start_by(chars@.skip(lo as int), class),
        decreases chars@.len() - lo,
    {
        assert(chars@.skip(lo as int).drop_first() =~= chars@.skip(lo + 1));
        lo += 1;
    }
    assert(chars@.subrange(lo as int, chars@.len() as int) =~= chars@.skip(lo as int));
    slice(&chars, lo, chars.len())
}

/// Whether `pat` stands in `s` at position `i`.
pub open spec fn occurs_at(s: Seq<char>, pat: Seq<char>, i: int) -> bool {
    0 <= i && i + pat.len() <= s.len() && s.subrange(i, i + pat.len()) == pat
}

/// Whether `pat` stands somewhere in `s`.
pub open spec fn contains(s: Seq<char>, pat: Seq<char>) -> bool {
    exists|i: int| occurs_at(s, pat, i)
}

/// Whether `pat` stands in `s` at position `at`.
fn matches_at(s: &Vec<char>, pat: &Vec<char>, at: usize) -> (r: bool)
    requires
        at <= s@.len(),
    ensures
        r == occurs_at(s@, pat@, at as int),
{
    let n: usize = s.len();
    if n - at < pat.len() {
        return false;
    }
    for k in 0..pat.len()
        invariant
            n == s@.len(),
            at + pat@.len() <= n,
            forall|j: int| 0 <= j < k ==> s@[at + j] == pat@[j],
    {
        if s[at + k] != pat[k] {
            proof {
                assert(s@.subrange(at as int, at + pat@.len())[k as int] != pat@[k as int]);
            }
            return false;
        }
    }
    assert(s@.subrange(at as int, at + pat@.len()) =~= pat@);
    true
}

/// Whether `needle` stands somewhere in `s`.
pub fn has_text(s: &str, needle: &str) -> (r: bool)
    ensures
        r == contains(s@, needle@),
{
    let chars = chars_of(s);
    let pat = chars_of(needle);
    for i in 0..chars.len()
        invariant
            chars@ == s@,
            pat@ == needle@,
            forall|k: int| 0 <= k < i ==> !occurs_at(chars@, pat@, k),
    {
        if matches_at(&chars, &pat, i) {
            return true;
        }
    }
    let n: usize = chars.len();
    matches_at(&chars, &pat, n)
}

/// Whether `s` begins with `prefix`.
pub fn starts_with(s: &str, prefix: &str) -> (r: bool)
    ensures
        r == prefix@.is_prefix_of(s@),
{
    let chars = chars_of(s);
    let pat = chars_of(prefix);
    matches_at(&chars, &pat, 0)
}

/// What follows `prefix` in `s`, if `s` begins with it.
pub fn strip_prefix(s: &str, prefix: &str) -> (r: Option<String>)
    ensures
        match r {
            Some(rest) => prefix@.is_prefix_of(s@) && rest@ == s@.skip(prefix@.len() as int),
            None => !prefix@.is_prefix_of(s@),
        },
{
    let chars = chars_of(s);
    let pat = chars_of(prefix);
    if matches_at(&chars, &pat, 0) {
        let rest = slice(&chars, pat.len(), chars.len());
        assert(rest@ =~= s@.skip(prefix@.len() as int));
        Some(rest)
    } else {
        None
    }
}

/// The part of `s` before the first `stop`, or all of it.
pub open spec fn until(s: Seq<char>, stop: char) -> Seq<char>
    decreases s.len(),
{
    if s.len() == 0 || s[0] == stop {
        Seq::empty()
    } else {
        seq![s[0]] + until(s.drop_first(), stop)
    }
}

/// The part of `s` before the first `stop`, or all of it.
pub fn before(s: &str, stop: char) -> (r: String)
    ensures
        r@ == until(s@, stop),
{
    let chars = chars_of(s);
    let mut i: usize = 0;
    assert(chars@.take(0) + until(chars@.skip(0), stop) =~= until(chars@, stop)) by {
        assert(chars@.skip(0) =~= chars@);
    }
    while i < chars.len() && chars[i] != stop
        invariant
            i <= chars@.len(),
            until(chars@, stop) == chars@.take(i as int) + until(chars@.skip(i as int), stop),
        decreases chars@.len() - i,
    {
        proof {
            assert(chars@.skip(i as int).drop_first() =~= chars@.skip(i + 1));
            assert(chars@.take(i as int) + (seq![chars@[i as int]] + until(chars@.skip(i + 1), stop))
                =~= chars@.take(i + 1) + until(chars@.skip(i + 1), stop));
        }
        i += 1;
    }
    assert(until(chars@.skip(i as int), stop) =~= Seq::empty());
    assert(chars@.subrange(0, i as int) =~= chars@.take(i as int) + Seq::empty());
    slice(&chars, 0, i)
}

/// A line without the carriage return before its line feed.
pub open spec fn without_cr(line: Seq<char>) -> Seq<char> {
    if line.len() > 0 && line.last() == '\r' {
        line.drop_last()
    } else {
        line
    }
}

/// The lines of `s`: each ends at `\n` or `\r\n`; nothing stands for an empty last line.
pub open spec fn lines(s: Seq<char>) -> Seq<Seq<char>> {
    let parts = split_by(s, CharClass::Is('\n'));
    let ended = parts.drop_last().map_values(|l: Seq<char>| without_cr(l));
    if parts.last().len() == 0 {
        ended
    } else {
        ended.push(parts.last())
    }
}

/// The last piece of a split stands for the text after the last separator.
pub proof fn lemma_split_not_empty(s: Seq<char>, class: CharClass)
    ensures
        split_by(s, class).len() > 0,
    decreases s.len(),
{
    if s.len() > 0 {
        lemma_split_not_empty(s.drop_last(), class);
    }
}

/// The pieces of two texts with a separator between them are those of the one and of the other.
pub proof fn lemma_split_joined(a: Seq<char>, c: char, b: Seq<char>, class: CharClass)
    requires
        class.has(c),
    ensures
        split_by(a.push(c) + b, class) == split_by(a, class) + split_by(b, class),
        pieces(a.push(c) + b, class) == pieces(a, class) + pieces(b, class),
    decreases b.len(),
{
    let s = a.push(c) + b;
    if b.len() == 0 {
        assert(s.drop_last() =~= a);
        assert(s.last() == c);
        assert(split_by(s, class) =~= split_by(a, class) + split_by(b, class));
    } else {
        let short = b.drop_last();
        lemma_split_joined(a, c, short, class);
        lemma_split_not_empty(short, class);
        assert(s.drop_last() =~= a.push(c) + short);
        assert(s.last() == b.last());
        assert(split_by(s, class) =~= split_by(a, class) + split_by(b, class));
    }
    Seq::filter_distributes_over_add(
        split_by(a, class),
        split_by(b, class),
        |p: Seq<char>| p.len() > 0,
    );
}

/// A text without separators is one piece.
pub proof fn lemma_one_piece(s: Seq<char>, class: CharClass)
    requires
        forall|k: int| 0 <= k < s.len() ==> !class.has(#[trigger] s[k]),
    ensures
        split_by(s, class) == seq![s],
        pieces(s, class) == (if s.len() > 0 {
            seq![s]
        } else {
            Seq::empty()
        }),
    decreases s.len(),
{
    if s.len() > 0 {
        let short = s.drop_last();
        assert forall|k: int| 0 <= k < short.len() implies !class.has(#[trigger] short[k]) by {
            assert(short[k] == s[k]);
        }
        lemma_one_piece(short, class);
        assert(s.last() == s[s.len() - 1]);
        assert(short.push(s.last()) =~= s);
        assert(split_by(s, class) =~= seq![s]);
    } else {
        assert(s =~= Seq::<char>::empty());
    }
    reveal(Seq::filter);
    let all = seq![s];
    assert(all.drop_last() =~= Seq::<Seq<char>>::empty());
    assert(all.drop_last().filter(|p: Seq<char>| p.len() > 0) =~= Seq::<Seq<char>>::empty());
    if s.len() > 0 {
        assert(pieces(s, class) =~= seq![s]);
    } else {
        assert(pieces(s, class) =~= Seq::<Seq<char>>::empty());
    }
}

/// What is trimmed stays as it is when it is trimmed again.
pub proof fn lemma_trimmed(s: Seq<char>, class: CharClass)
    ensures
        trim_by(trim_by(s, class), class) == trim_by(s, class),
{
    let from = trim_start_by(s, class);
    lemma_trim_start(s, class);
    lemma_trim_end(from, class);
}

/// What is trimmed at its start has no character of the class there.
proof fn lemma_trim_start(s: Seq<char>, class: CharClass)
    ensures
        trim_start_by(s, class).len() > 0 ==> !class.has(trim_start_by(s, class)[0]),
    decreases s.len(),
{
    if s.len() > 0 && class.has(s[0]) {
        lemma_trim_start(s.drop_first(), class);
    }
}

/// What is trimmed at its end has no character of the class there, and begins as before.
proof fn lemma_trim_end(s: Seq<char>, class: CharClass)
    ensures
        trim_end_by(s, class).len() > 0 ==> !class.has(trim_end_by(s, class).last())
            && trim_end_by(s, class)[0] == s[0],
    decreases s.len(),
{
    if s.len() > 0 && class.has(s.last()) {
        lemma_trim_end(s.drop_last(), class);
    }
}

/// The lines of `s`.
pub fn lines_of(s: &str) -> (r: Vec<String>)
    ensures
        views(r@) == lines(s@),
{
    let parts = split(s, CharClass::Is('\n'));
    proof {
        lemma_split_not_empty(s@, CharClass::Is('\n'));
        assert(views(parts@).len() == parts@.len());
    }
    let last: usize = parts.len() - 1;
    let ghost cut = |l: Seq<char>| without_cr(l);
    let mut out: Vec<String> = Vec::new();
    for i in 0..last
        invariant
            last == parts@.len() - 1,
            cut == (|l: Seq<char>| without_cr(l)),
            views(out@) == views(parts@).take(i as int).map_values(cut),
    {
        let chars = chars_of(parts[i].as_str());
        let n: usize = chars.len();
        let line = if n > 0 && chars[n - 1] == '\r' {
            slice(&chars, 0, n - 1)
        } else {
            parts[i].clone()
        };
        let ghost before = views(out@);
        let ghost shown = line@;
        assert(shown =~= without_cr(views(parts@)[i as int]));
        out.push(line);
        assert(views(out@) =~= before.push(shown));
        assert(views(parts@).take(i + 1).map_values(cut) =~= before.push(cut(views(parts@)[i as int])));
    }
    assert(views(parts@).drop_last() =~= views(parts@).take(last as int));
    if parts[last].as_str().unicode_len() > 0 {
        let ghost before = views(out@);
        out.push(parts[last].clone());
        assert(views(out@) =~= before.push(views(parts@).last()));
    }
    out
}

/// The parts with `sep` between each two of them.
pub open spec fn join(parts: Seq<Seq<char>>, sep: Seq<char>) -> Seq<char>
    decreases parts.len(),
{
    if parts.len() == 0 {
        Seq::empty()
    } else if parts.len() == 1 {
        parts[0]
    } else {
        join(parts.drop_last(), sep) + sep + parts.last()
    }
}

/// Joins the first `n` parts with `sep` between each two of them.
pub fn join_first(parts: &Vec<String>, n: usize, sep: &str) -> (r: String)
    requires
        n <= parts@.len(),
    ensures
        r@ == join(views(parts@).take(n as int), sep@),
{
    let mut out = String::new();
    for i in 0..n
        invariant
            n <= parts@.len(),
            out@ == join(views(parts@).take(i as int), sep@),
    {
        proof {
            assert(views(parts@).take(i + 1).drop_last() =~= views(parts@).take(i as int));
            assert(views(parts@).take(i + 1).last() == parts@[i as int]@);
        }
        if i > 0 {
            out.append(sep);
        }
        out.append(parts[i].as_str());
    }
    out
}

/// Joins the parts with `sep` between each two of them.
pub fn join_all(parts: &Vec<String>, sep: &str) -> (r: String)
    ensures
        r@ == join(views(parts@), sep@),
{
    assert(views(parts@).take(parts@.len() as int) =~= views(parts@));
    join_first(parts, parts.len(), sep)
}

/// The character of a decimal digit.
pub open spec fn digit(d: nat) -> char {
    (48 + d) as char
}

/// A number in decimal notation.
pub open spec fn decimal(n: nat) -> Seq<char>
    decreases n,
{
    if n < 10 {
        seq![digit(n)]
    } else {
        decimal(n / 10).push(digit(n % 10))
    }
}

/// Writes a number in decimal notation.
pub fn decimal_of(n: u64) -> (r: String)
    ensures
        r@ == decimal(n as nat),
    decreases n,
{
    let d: u8 = 48 + (n % 10) as u8;
    if n < 10 {
        let mut out = String::new();
        out.push(d as char);
        assert(out@ =~= decimal(n as nat));
        out
    } else {
        let mut out = decimal_of(n / 10);
        out.push(d as char);
        out
    }
}

/// A number, or the largest that can be held.
pub open spec fn capped(n: nat) -> u128 {
    if n < u128::MAX {
        n as u128
    } else {
        u128::MAX
    }
}

/// Whether every character is a decimal digit.
pub open spec fn all_digits(s: Seq<char>) -> bool {
    forall|i: int| 0 <= i < s.len() ==> '0' as u32 <= #[trigger] s[i] as u32 <= '9' as u32
}

/// The number that some digits stand for.
pub open spec fn digits_value(s: Seq<char>) -> nat
    decreases s.len(),
{
    if s.len() == 0 {
        0
    } else {
        10 * digits_value(s.drop_last()) + (s.last() as u32 - '0' as u32) as nat
    }
}

/// The digits of a number, behind a plus sign if there is one.
pub open spec fn unsigned_part(s: Seq<char>) -> Seq<char> {
    if s.len() > 0 && s[0] == '+' {
        s.drop_first()
    } else {
        s
    }
}

/// The number below 2^64 that a text stands for.
pub open spec fn number_in(s: Seq<char>) -> Option<u64> {
    let digits = unsigned_part(s);
    if digits.len() > 0 && all_digits(digits) && digits_value(digits) <= u64::MAX {
        Some(digits_value(digits) as u64)
    } else {
        None
    }
}

/// The first digits stand for no larger number than all of them.
proof fn lemma_prefix_value(s: Seq<char>, n: int)
    requires
        0 <= n <= s.len(),
        all_digits(s),
    ensures
        digits_value(s.take(n)) <= digits_value(s),
    decreases s.len(),
{
    if n == s.len() {
        assert(s.take(n) =~= s);
    } else {
        lemma_prefix_value(s.drop_last(), n);
        assert(s.drop_last().take(n) =~= s.take(n));
    }
}

/// The number below 2^64 that a text stands for.
pub fn parse_number(s: &str) -> (r: Option<u64>)
    ensures
        r == number_in(s@),
{
    let chars = chars_of(s);
    let ghost digits = unsigned_part(s@);
    let from: usize = if chars.len() > 0 && chars[0] == '+' {
        1
    } else {
        0
    };
    assert(digits =~= s@.skip(from as int));
    if from == chars.len() {
        return None;
    }
    let mut value: u64 = 0;
    let mut i: usize = from;
    assert(digits.take(0) =~= Seq::<char>::empty());
    while i < chars.len()
        invariant
            chars@ == s@,
            digits == unsigned_part(s@),
            digits == s@.skip(from as int),
            from <= i <= chars@.len(),
            from < chars@.len(),
            all_digits(digits.take(i - from)),
            value == digits_value(digits.take(i - from)),
        decreases chars@.len() - i,
    {
        let c = chars[i];
        let d: u32 = c as u32;
        assert(digits[i - from] == c);
        if d < 48 || d > 57 {
            assert(d as int == c as u32);
            return None;
        }
        let ghost now = digits.take(i - from);
        let ghost next = digits.take(i - from + 1);
        assert(next.drop_last() =~= now);
        assert(next.last() == c);
        assert(all_digits(next));
        let wide: u128 = value as u128 * 10 + (d - 48) as u128;
        assert(wide == digits_value(next));
        if wide > u64::MAX as u128 {
            proof {
                if all_digits(digits) {
                    lemma_prefix_value(digits, i - from + 1);
                }
            }
            return None;
        }
        value = wide as u64;
        i += 1;
    }
    assert(digits.take(chars@.len() - from) =~= digits);
    Some(value)
}

/// A number in decimal notation, with its sign where it is negative.
pub open spec fn signed(n: int) -> Seq<char> {
    if n < 0 {
        seq!['-'] + decimal((-n) as nat)
    } else {
        decimal(n as nat)
    }
}

/// Writes a number in decimal notation, with its sign where it is negative.
pub fn signed_of(n: i64) -> (r: String)
    ensures
        r@ == signed(n as int),
{
    if n < 0 {
        let size: u64 = (-(n as i128)) as u64;
        let mut out = String::new();
        out.push('-');
        out.append(decimal_of(size).as_str());
        assert(out@ =~= signed(n as int));
        out
    } else {
        decimal_of(n as u64)
    }
}

/// `n` times the character `c`.
pub open spec fn repeated(c: char, n: nat) -> Seq<char> {
    Seq::new(n, |i: int| c)
}

/// `n` times the character `c`.
pub fn repeat(c: char, n: usize) -> (r: String)
    ensures
        r@ == repeated(c, n as nat),
{
    let mut out = String::new();
    for i in 0..n
        invariant
            out@ == repeated(c, i as nat),
    {
        out.push(c);
    }
    out
}

/// The spaces that fill `s` up to `width` characters.
pub open spec fn fill(s: Seq<char>, width: nat) -> Seq<char> {
    if s.len() < width {
        repeated(' ', (width - s.len()) as nat)
    } else {
        Seq::empty()
    }
}

/// `s` filled up to `width` characters on the right.
pub open spec fn padded_right(s: Seq<char>, width: nat) -> Seq<char> {
    s + fill(s, width)
}

/// `s` filled up to `width` characters on the left.
pub open spec fn padded_left(s: Seq<char>, width: nat) -> Seq<char> {
    fill(s, width) + s
}

/// The spaces that fill `s` up to `width` characters.
fn filler(s: &str, width: usize) -> (r: String)
    ensures
        r@ == fill(s@, width as nat),
{
    let n: usize = s.unicode_len();
    if n < width {
        repeat(' ', width - n)
    } else {
        String::new()
    }
}

/// Appends `s`, filled up to `width` characters on the right.
pub fn append_right(out: &mut String, s: &str, width: usize)
    ensures
        final(out)@ == old(out)@ + padded_right(s@, width as nat),
{
    let space = filler(s, width);
    out.append(s);
    out.append(space.as_str());
}

/// Appends `s`, filled up to `width` characters on the left.
pub fn append_left(out: &mut String, s: &str, width: usize)
    ensures
        final(out)@ == old(out)@ + padded_left(s@, width as nat),
{
    let space = filler(s, width);
    out.append(space.as_str());
    out.append(s);
}

/// `s` with each `from` replaced by `to`.
pub open spec fn replaced(s: Seq<char>, from: char, to: char) -> Seq<char> {
    s.map_values(|c: char| if c == from { to } else { c })
}

/// Replaces each `from` in `s` by `to`.
pub fn replace_char(s: &str, from: char, to: char) -> (r: String)
    ensures
        r@ == replaced(s@, from, to),
{
    let chars = chars_of(s);
    let mut out = String::new();
    for i in 0..chars.len()
        invariant
            out@ == replaced(chars@.take(i as int), from, to),
    {
        let c = chars[i];
        if c == from {
            out.push(to);
        } else {
            out.push(c);
        }
        assert(out@ =~= replaced(chars@.take(i + 1), from, to));
    }
    assert(chars@.take(chars@.len() as int) =~= chars@);
    out
}

// ---------------------------------------------------------------------------------------------
// What the parts of texts are
// ---------------------------------------------------------------------------------------------

/// A text holds another if and only if it is something, the other, and something behind it.
pub proof fn law_contains(s: Seq<char>, pat: Seq<char>)
    ensures
        contains(s, pat) == exists|a: Seq<char>, b: Seq<char>| s == #[trigger] (a + pat + b),
{
    if contains(s, pat) {
        let i = choose|i: int| occurs_at(s, pat, i);
        let a = s.take(i);
        let b = s.skip(i + pat.len());
        assert(s =~= a + s.subrange(i, i + pat.len()) + b);
        assert(s == a + pat + b);
    }
    if exists|a: Seq<char>, b: Seq<char>| s == #[trigger] (a + pat + b) {
        let (a, b) = choose|a: Seq<char>, b: Seq<char>| s == #[trigger] (a + pat + b);
        assert(s.subrange(a.len() as int, (a.len() + pat.len()) as int) =~= pat);
        assert(occurs_at(s, pat, a.len() as int));
    }
}

/// What is trimmed away at the start.
proof fn lemma_trimmed_start(s: Seq<char>, class: CharClass) -> (a: Seq<char>)
    ensures
        s == a + trim_start_by(s, class),
        forall|i: int| 0 <= i < a.len() ==> class.has(#[trigger] a[i]),
    decreases s.len(),
{
    if s.len() > 0 && class.has(s[0]) {
        let rest = lemma_trimmed_start(s.drop_first(), class);
        let a = seq![s[0]] + rest;
        assert(s =~= seq![s[0]] + s.drop_first());
        assert(s =~= a + trim_start_by(s, class));
        a
    } else {
        assert(s =~= Seq::<char>::empty() + s);
        Seq::empty()
    }
}

/// What is trimmed away at the end.
proof fn lemma_trimmed_end(s: Seq<char>, class: CharClass) -> (b: Seq<char>)
    ensures
        s == trim_end_by(s, class) + b,
        forall|i: int| 0 <= i < b.len() ==> class.has(#[trigger] b[i]),
    decreases s.len(),
{
    if s.len() > 0 && class.has(s.last()) {
        let rest = lemma_trimmed_end(s.drop_last(), class);
        let b = rest.push(s.last());
        assert(s =~= s.drop_last().push(s.last()));
        assert(s =~= trim_end_by(s, class) + b);
        b
    } else {
        assert(s =~= s + Seq::<char>::empty());
        Seq::empty()
    }
}

/// What is trimmed is the middle of the text: only characters of the class stand before and behind
/// it, and it begins and ends with others. `r` is what stood before and behind it.
pub proof fn law_trimmed(s: Seq<char>, class: CharClass) -> (r: (Seq<char>, Seq<char>))
    ensures
        s == r.0 + trim_by(s, class) + r.1,
        forall|i: int| 0 <= i < r.0.len() ==> class.has(#[trigger] r.0[i]),
        forall|i: int| 0 <= i < r.1.len() ==> class.has(#[trigger] r.1[i]),
        trim_by(s, class).len() > 0 ==> !class.has(trim_by(s, class)[0]) && !class.has(
            trim_by(s, class).last(),
        ),
{
    let a = lemma_trimmed_start(s, class);
    let from = trim_start_by(s, class);
    let b = lemma_trimmed_end(from, class);
    lemma_trim_start(s, class);
    lemma_trim_end(from, class);
    assert(s =~= a + trim_by(s, class) + b);
    (a, b)
}

/// A text up to a character is what stands before its first occurrence, or all of it where it has
/// none. `r` is what comes behind.
pub proof fn law_until(s: Seq<char>, stop: char) -> (r: Seq<char>)
    ensures
        s == until(s, stop) + r,
        forall|i: int| 0 <= i < until(s, stop).len() ==> #[trigger] until(s, stop)[i] != stop,
        r.len() > 0 ==> r[0] == stop,
    decreases s.len(),
{
    if s.len() == 0 || s[0] == stop {
        assert(s =~= until(s, stop) + s);
        s
    } else {
        let r = law_until(s.drop_first(), stop);
        assert(s =~= seq![s[0]] + s.drop_first());
        assert(s =~= until(s, stop) + r);
        r
    }
}

/// Joining puts the separator between the parts, and nowhere else.
pub proof fn law_joined(a: Seq<Seq<char>>, b: Seq<Seq<char>>, sep: Seq<char>)
    ensures
        a.len() > 0 && b.len() > 0 ==> join(a + b, sep) == join(a, sep) + sep + join(b, sep),
        forall|x: Seq<char>| #[trigger] join(seq![x], sep) == x,
        join(Seq::empty(), sep) == Seq::<char>::empty(),
    decreases b.len(),
{
    if a.len() > 0 && b.len() > 0 {
        assert((a + b).drop_last() =~= a + b.drop_last());
        assert((a + b).last() == b.last());
        if b.len() == 1 {
            assert(a + b.drop_last() =~= a);
            assert(join(a + b, sep) == join(a, sep) + sep + b[0]);
        } else {
            law_joined(a, b.drop_last(), sep);
            assert(join(a + b, sep) =~= join(a, sep) + sep + join(b, sep));
        }
    }
}

/// What a number is written as stands for that number, in digits, the first of them no zero but for
/// zero itself.
pub proof fn law_decimal(n: nat)
    ensures
        decimal(n).len() > 0,
        all_digits(decimal(n)),
        digits_value(decimal(n)) == n,
        n > 0 ==> decimal(n)[0] != '0',
        n == 0 ==> decimal(n) == seq!['0'],
    decreases n,
{
    if n < 10 {
        let s = decimal(n);
        assert(s.drop_last() =~= Seq::<char>::empty());
        assert(digits_value(s.drop_last()) == 0);
        assert(s[0] as u32 == 48 + n);
    } else {
        law_decimal(n / 10);
        let s = decimal(n);
        assert(s.drop_last() =~= decimal(n / 10));
        assert(s.last() as u32 == 48 + n % 10);
        assert forall|i: int| 0 <= i < s.len() implies '0' as u32 <= #[trigger] s[i] as u32
            <= '9' as u32 by {
            if i < s.len() - 1 {
                assert(s[i] == decimal(n / 10)[i]);
            }
        }
        assert(s[0] == decimal(n / 10)[0]);
    }
}

/// A number that is written and read is the same number.
pub proof fn law_number_read_back(n: u64)
    ensures
        number_in(decimal(n as nat)) == Some(n),
{
    law_decimal(n as nat);
    let s = decimal(n as nat);
    assert('0' as u32 <= s[0] as u32 <= '9' as u32);
    assert(s[0] != '+');
}

/// A padded text takes the width that is asked for, or its own where that is larger; what is added
/// is spaces, behind the text or before it.
pub proof fn law_padded(s: Seq<char>, width: nat)
    ensures
        padded_right(s, width).len() == (if s.len() < width {
            width
        } else {
            s.len()
        }),
        padded_left(s, width).len() == padded_right(s, width).len(),
        padded_right(s, width).take(s.len() as int) == s,
        padded_left(s, width).skip(padded_left(s, width).len() - s.len()) == s,
        forall|i: int|
            s.len() <= i < padded_right(s, width).len() ==> #[trigger] padded_right(s, width)[i]
                == ' ',
        forall|i: int|
            0 <= i < padded_left(s, width).len() - s.len() ==> #[trigger] padded_left(s, width)[i]
                == ' ',
{
    assert(padded_right(s, width).take(s.len() as int) =~= s);
    assert(padded_left(s, width).skip(padded_left(s, width).len() - s.len()) =~= s);
}

/// A line that ends in a line feed, before other text, is the first of its lines: without the line
/// feed, and without a carriage return before it.
pub proof fn law_lines(line: Seq<char>, rest: Seq<char>)
    requires
        forall|i: int| 0 <= i < line.len() ==> #[trigger] line[i] != '\n',
    ensures
        lines(line.push('\n') + rest) == seq![
            if line.len() > 0 && line.last() == '\r' {
                line.drop_last()
            } else {
                line
            },
        ] + lines(rest),
        lines(line) == (if line.len() == 0 {
            Seq::empty()
        } else {
            seq![line]
        }),
{
    let class = CharClass::Is('\n');
    lemma_split_joined(line, '\n', rest, class);
    lemma_one_piece(line, class);
    lemma_split_not_empty(rest, class);
    let a = split_by(line.push('\n') + rest, class);
    let b = split_by(rest, class);
    assert(a =~= seq![line] + b);
    assert(a.drop_last() =~= seq![line] + b.drop_last());
    assert(a.last() == b.last());
    let strip = |l: Seq<char>| without_cr(l);
    assert(a.drop_last().map_values(strip) =~= seq![without_cr(line)] + b.drop_last().map_values(
        strip,
    ));
    assert(lines(line.push('\n') + rest) =~= seq![without_cr(line)] + lines(rest));
    assert(split_by(line, class).drop_last().map_values(strip) =~= Seq::<Seq<char>>::empty());
    assert(lines(line) =~= (if line.len() == 0 {
        Seq::empty()
    } else {
        seq![line]
    }));
}

/// What the classes of characters hold.
pub proof fn law_classes(c: char, d: char)
    ensures
        CharClass::Is(d).has(c) == (c == d),
        CharClass::SlashOrDot.has(c) == (c == '/' || c == '.'),
        CharClass::NotAlphanumeric.has(c) == !is_alphanumeric(c),
        CharClass::Space.has(c) == is_space(c),
        is_space(' ') && is_space('\t') && is_space('\n') && is_space('\r'),
{
}

/// A number below zero is written as the number above it, behind a minus.
pub proof fn law_signed(n: nat)
    ensures
        signed(n as int) == decimal(n),
        n > 0 ==> signed(-(n as int)) == seq!['-'] + decimal(n),
{
}

/// Replacing a character leaves the length and all other characters, and none of the replaced.
pub proof fn law_replaced(s: Seq<char>, from: char, to: char)
    ensures
        replaced(s, from, to).len() == s.len(),
        forall|i: int|
            0 <= i < s.len() ==> #[trigger] replaced(s, from, to)[i] == (if s[i] == from {
                to
            } else {
                s[i]
            }),
{
}

}
