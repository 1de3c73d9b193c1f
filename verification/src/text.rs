//! Text as sequences of characters: character classes, trimming, runs of
//! characters, joining, case mapping and decimal numerals.
use vstd::prelude::*;

verus! {

/// The characters with the Unicode property `White_Space`.
pub open spec fn white_space(c: char) -> bool {
    let n = c as u32;
    ||| 0x09 <= n <= 0x0d
    ||| n == 0x20
    ||| n == 0x85
    ||| n == 0xa0
    ||| n == 0x1680
    ||| 0x2000 <= n <= 0x200a
    ||| n == 0x2028
    ||| n == 0x2029
    ||| n == 0x202f
    ||| n == 0x205f
    ||| n == 0x3000
}

/// The letters and digits of ASCII.
pub open spec fn ascii_alphanumeric(c: char) -> bool {
    ||| '0' <= c <= '9'
    ||| 'A' <= c <= 'Z'
    ||| 'a' <= c <= 'z'
}

pub open spec fn ascii(c: char) -> bool {
    (c as u32) < 128
}

pub open spec fn ascii_text(s: Seq<char>) -> bool {
    forall|i: int| 0 <= i < s.len() ==> ascii(#[trigger] s[i])
}

pub open spec fn lower_char(c: char) -> char {
    if 'A' <= c <= 'Z' {
        ((c as u32) + 32) as char
    } else {
        c
    }
}

pub open spec fn upper_char(c: char) -> char {
    if 'a' <= c <= 'z' {
        ((c as u32) - 32) as char
    } else {
        c
    }
}

/// `s` with the ASCII capitals made small.
pub open spec fn ascii_lower(s: Seq<char>) -> Seq<char> {
    Seq::new(s.len(), |i: int| lower_char(s[i]))
}

/// `s` with the small ASCII letters made capital.
pub open spec fn ascii_upper(s: Seq<char>) -> Seq<char> {
    Seq::new(s.len(), |i: int| upper_char(s[i]))
}

/// What `str::to_uppercase` makes of text that holds a character outside ASCII.
pub uninterp spec fn unicode_uppercase(s: Seq<char>) -> Seq<char>;

/// What `str::to_lowercase` makes of text that holds a character outside ASCII.
pub uninterp spec fn unicode_lowercase(s: Seq<char>) -> Seq<char>;

/// `s` in capitals.
pub open spec fn uppercase(s: Seq<char>) -> Seq<char> {
    if ascii_text(s) {
        ascii_upper(s)
    } else {
        unicode_uppercase(s)
    }
}

/// `s` in small letters.
pub open spec fn lowercase(s: Seq<char>) -> Seq<char> {
    if ascii_text(s) {
        ascii_lower(s)
    } else {
        unicode_lowercase(s)
    }
}

/// `s` without the white space it starts with.
pub open spec fn trimmed_start(s: Seq<char>) -> Seq<char>
    decreases s.len(),
{
    if s.len() > 0 && white_space(s[0]) {
        trimmed_start(s.drop_first())
    } else {
        s
    }
}

/// `s` without the white space it ends with.
pub open spec fn trimmed_end(s: Seq<char>) -> Seq<char>
    decreases s.len(),
{
    if s.len() > 0 && white_space(s.last()) {
        trimmed_end(s.drop_last())
    } else {
        s
    }
}

/// `s` without the white space at either end.
pub open spec fn trimmed(s: Seq<char>) -> Seq<char> {
    trimmed_end(trimmed_start(s))
}

/// A class of characters whose runs [`runs`] collects.
#[derive(Clone, Copy)]
pub enum CharClass {
    /// Every character that is not white space.
    Visible,
    /// The letters and digits of ASCII.
    Alphanumeric,
}

pub open spec fn in_class(class: CharClass, c: char) -> bool {
    match class {
        CharClass::Visible => !white_space(c),
        CharClass::Alphanumeric => ascii_alphanumeric(c),
    }
}

/// The longest stretches of `s` made of characters of `class`, in order: a
/// character of the class lengthens the run that it follows, or starts one.
pub open spec fn runs(class: CharClass, s: Seq<char>) -> Seq<Seq<char>>
    decreases s.len(),
{
    if s.len() == 0 {
        Seq::empty()
    } else {
        let before = runs(class, s.drop_last());
        let c = s.last();
        if !in_class(class, c) {
            before
        } else if s.len() > 1 && in_class(class, s[s.len() - 2]) {
            before.drop_last().push(before.last().push(c))
        } else {
            before.push(seq![c])
        }
    }
}

/// The words of `s`: what white space parts.
pub open spec fn words(s: Seq<char>) -> Seq<Seq<char>> {
    runs(CharClass::Visible, s)
}

/// The texts `parts`, one after the other, with `sep` between two of them.
pub open spec fn joined(parts: Seq<Seq<char>>, sep: Seq<char>) -> Seq<char>
    decreases parts.len(),
{
    if parts.len() == 0 {
        Seq::empty()
    } else if parts.len() == 1 {
        parts[0]
    } else {
        joined(parts.drop_last(), sep) + sep + parts.last()
    }
}

/// The contents of a vector of strings.
pub open spec fn texts(v: Seq<String>) -> Seq<Seq<char>> {
    Seq::new(v.len(), |i: int| v[i]@)
}

/// The contents of a vector of character vectors.
pub open spec fn char_texts(v: Seq<Vec<char>>) -> Seq<Seq<char>> {
    Seq::new(v.len(), |i: int| v[i]@)
}

/// What an optional string holds.
pub open spec fn opt_text(o: Option<String>) -> Option<Seq<char>> {
    match o {
        Some(s) => Some(s@),
        None => None,
    }
}

/// An optional text that is not empty; an empty one counts as none.
pub open spec fn filled(o: Option<Seq<char>>) -> Option<Seq<char>> {
    match o {
        Some(s) => if s.len() > 0 {
            Some(s)
        } else {
            None
        },
        None => None,
    }
}

/// Where `c` first stands in `s`; the length of `s` if it does not.
pub open spec fn find(s: Seq<char>, c: char) -> nat
    decreases s.len(),
{
    if s.len() == 0 || s[0] == c {
        0
    } else {
        1 + find(s.drop_first(), c)
    }
}

/// What stands before the first `c` of `s`; all of `s` if it has none.
pub open spec fn before(s: Seq<char>, c: char) -> Seq<char> {
    s.take(find(s, c) as int)
}

/// What stands behind the first `c` of `s`; nothing if it has none.
pub open spec fn after(s: Seq<char>, c: char) -> Seq<char> {
    if find(s, c) < s.len() {
        s.skip(find(s, c) as int + 1)
    } else {
        Seq::empty()
    }
}

/// `s` with every `from` replaced by `to`.
pub open spec fn with_char_replaced(s: Seq<char>, from: char, to: char) -> Seq<char> {
    Seq::new(
        s.len(),
        |i: int|
            if s[i] == from {
                to
            } else {
                s[i]
            },
    )
}

pub open spec fn starts_with(s: Seq<char>, prefix: Seq<char>) -> bool {
    s.len() >= prefix.len() && s.take(prefix.len() as int) == prefix
}

pub open spec fn digit(d: nat) -> char {
    ((d + 48) as u32) as char
}

/// The decimal numeral of `n`.
pub open spec fn decimal(n: nat) -> Seq<char>
    decreases n,
{
    if n < 10 {
        seq![digit(n)]
    } else {
        decimal(n / 10).push(digit(n % 10))
    }
}

// ---------------------------------------------------------------------------
// What std provides

/// `char::is_whitespace`: whether `c` has the Unicode property `White_Space`.
pub assume_specification[ char::is_whitespace ](c: char) -> (r: bool)
    ensures
        r == white_space(c),
;

/// `String::push`: appends one character.
pub assume_specification[ String::push ](s: &mut String, c: char)
    ensures
        final(s)@ == old(s)@.push(c),
;

/// `str::to_uppercase`. Of ASCII text it is known letter by letter; of other
/// text only that it depends on nothing but the text.
#[verifier::external_body]
pub(crate) fn to_upper(s: &str) -> (r: String)
    ensures
        r@ == if ascii_text(s@) {
            ascii_upper(s@)
        } else {
            unicode_uppercase(s@)
        },
{
    s.to_uppercase()
}

/// `str::to_lowercase`. Of ASCII text it is known letter by letter; of other
/// text only that it depends on nothing but the text.
#[verifier::external_body]
pub(crate) fn to_lower(s: &str) -> (r: String)
    ensures
        r@ == if ascii_text(s@) {
            ascii_lower(s@)
        } else {
            unicode_lowercase(s@)
        },
{
    s.to_lowercase()
}

// ---------------------------------------------------------------------------
// Characters and strings

/// The characters of `s`.
pub fn chars_of(s: &str) -> (r: Vec<char>)
    ensures
        r@ == s@,
{
    let mut v: Vec<char> = Vec::new();
    for c in it: s.chars()
        invariant
            v@ == it.seq().take(it.index() as int),
    {
        v.push(c);
    }
    v
}

/// The string made of the characters of `v`.
pub fn string_of(v: &Vec<char>) -> (r: String)
    ensures
        r@ == v@,
{
    let mut s = String::new();
    for i in 0..v.len()
        invariant
            s@ == v@.take(i as int),
    {
        s.push(v[i]);
    }
    s
}

/// The characters of `v` from `from` up to, not with, `to`.
pub fn slice_of(v: &Vec<char>, from: usize, to: usize) -> (r: Vec<char>)
    requires
        from <= to <= v@.len(),
    ensures
        r@ == v@.subrange(from as int, to as int),
{
    let mut out: Vec<char> = Vec::new();
    for i in from..to
        invariant
            from <= to <= v@.len(),
            out@ == v@.subrange(from as int, i as int),
    {
        out.push(v[i]);
    }
    out
}

/// Whether two texts are the same.
pub fn same(a: &str, b: &str) -> (r: bool)
    ensures
        r == (a@ == b@),
{
    a.to_owned() == b.to_owned()
}

/// A copy of an optional string.
pub fn copy_opt(o: &Option<String>) -> (r: Option<String>)
    ensures
        r == *o,
        opt_text(r) == opt_text(*o),
{
    match o {
        Some(s) => Some(s.clone()),
        None => None,
    }
}

/// An optional string that is not empty.
pub fn filled_str(o: &Option<String>) -> (r: Option<&str>)
    ensures
        r is Some <==> filled(opt_text(*o)) is Some,
        r matches Some(s) ==> s@ == filled(opt_text(*o))->0,
{
    match o {
        Some(s) => if s.as_str().is_empty() {
            None
        } else {
            Some(s.as_str())
        },
        None => None,
    }
}

pub fn is_alphanumeric(c: char) -> (r: bool)
    ensures
        r == ascii_alphanumeric(c),
{
    ('0' <= c && c <= '9') || ('A' <= c && c <= 'Z') || ('a' <= c && c <= 'z')
}

/// Whether `s` holds ASCII characters only.
pub fn is_ascii_text(s: &str) -> (r: bool)
    ensures
        r == ascii_text(s@),
{
    let v = chars_of(s);
    for i in 0..v.len()
        invariant
            v@ == s@,
            forall|j: int| 0 <= j < i ==> ascii(#[trigger] s@[j]),
    {
        if v[i] as u32 >= 128 {
            assert(!ascii(s@[i as int]));
            return false;
        }
    }
    true
}

/// The small letter for an ASCII capital; any other character is kept.
pub fn lower_of(c: char) -> (r: char)
    ensures
        r == lower_char(c),
{
    if 'A' <= c && c <= 'Z' {
        (c as u8 + 32) as char
    } else {
        c
    }
}

pub fn belongs(class: CharClass, c: char) -> (r: bool)
    ensures
        r == in_class(class, c),
{
    match class {
        CharClass::Visible => !c.is_whitespace(),
        CharClass::Alphanumeric => is_alphanumeric(c),
    }
}

/// Appends the decimal numeral of `n`.
pub fn append_decimal(out: &mut String, n: u128)
    ensures
        final(out)@ == old(out)@ + decimal(n as nat),
    decreases n,
{
    if n >= 10 {
        append_decimal(out, n / 10);
    }
    let d: u8 = (n % 10) as u8;
    out.push((d + 48) as char);
}

/// The decimal numeral of `n`.
pub fn decimal_of(n: u128) -> (r: String)
    ensures
        r@ == decimal(n as nat),
{
    let mut s = String::new();
    append_decimal(&mut s, n);
    s
}

// ---------------------------------------------------------------------------
// Trimming

/// `str::trim` on a character vector.
pub fn trim_chars(v: &Vec<char>) -> (r: Vec<char>)
    ensures
        r@ == trimmed(v@),
{
    let mut lo: usize = 0;
    assert(v@.skip(0) =~= v@);
    while lo < v.len() && v[lo].is_whitespace()
        invariant
            lo <= v@.len(),
            trimmed_start(v@) == trimmed_start(v@.skip(lo as int)),
        decreases v@.len() - lo,
    {
        assert(v@.skip(lo as int).drop_first() =~= v@.skip(lo as int + 1));
        lo = lo + 1;
    }
    assert(trimmed_start(v@) == v@.skip(lo as int));
    let mut hi: usize = v.len();
    while hi > lo && v[hi - 1].is_whitespace()
        invariant
            lo <= hi <= v@.len(),
            trimmed(v@) == trimmed_end(v@.subrange(lo as int, hi as int)),
        decreases hi,
    {
        assert(v@.subrange(lo as int, hi as int).drop_last() =~= v@.subrange(
            lo as int,
            hi as int - 1,
        ));
        hi = hi - 1;
    }
    slice_of(v, lo, hi)
}

/// `s` without the white space at either end.
pub fn trim(s: &str) -> (r: String)
    ensures
        r@ == trimmed(s@),
{
    string_of(&trim_chars(&chars_of(s)))
}

// ---------------------------------------------------------------------------
// Runs of characters

/// The runs of characters of `class` in `v`.
pub fn runs_of(class: CharClass, v: &Vec<char>) -> (r: Vec<Vec<char>>)
    ensures
        char_texts(r@) == runs(class, v@),
{
    let mut done: Vec<Vec<char>> = Vec::new();
    let mut current: Vec<char> = Vec::new();
    for i in 0..v.len()
        invariant
            current@.len() > 0 <==> (i > 0 && in_class(class, v@[i - 1])),
            runs(class, v@.take(i as int)) == if current@.len() == 0 {
                char_texts(done@)
            } else {
                char_texts(done@).push(current@)
            },
    {
        let c = v[i];
        proof {
            let here = v@.take(i as int + 1);
            assert(here.drop_last() =~= v@.take(i as int));
            assert(i > 0 ==> here[here.len() - 2] == v@[i - 1]);
        }
        if belongs(class, c) {
            let ghost so_far = current@;
            current.push(c);
            proof {
                let all = char_texts(done@);
                if so_far.len() > 0 {
                    assert(all.push(so_far).drop_last() =~= all);
                } else {
                    assert(current@ =~= seq![c]);
                }
            }
        } else if current.len() > 0 {
            let ghost so_far = char_texts(done@);
            let ghost last = current@;
            done.push(current);
            current = Vec::new();
            assert(char_texts(done@) =~= so_far.push(last));
        }
    }
    assert(v@.take(v@.len() as int) =~= v@);
    if current.len() > 0 {
        let ghost so_far = char_texts(done@);
        let ghost last = current@;
        done.push(current);
        assert(char_texts(done@) =~= so_far.push(last));
    }
    done
}

/// The words of `s`.
pub fn words_of(s: &str) -> (r: Vec<Vec<char>>)
    ensures
        char_texts(r@) == words(s@),
{
    runs_of(CharClass::Visible, &chars_of(s))
}

// ---------------------------------------------------------------------------
// Joining, finding and replacing

/// The strings of `parts` with `sep` between them.
pub fn join(parts: &Vec<String>, sep: &str) -> (r: String)
    ensures
        r@ == joined(texts(parts@), sep@),
{
    let mut out = String::new();
    for i in 0..parts.len()
        invariant
            out@ == joined(texts(parts@).take(i as int), sep@),
    {
        let ghost all = texts(parts@);
        assert(all.take(i as int + 1).drop_last() =~= all.take(i as int));
        if i > 0 {
            out.append(sep);
        }
        out.append(parts[i].as_str());
        assert(i == 0 ==> out@ =~= all[0]);
    }
    assert(texts(parts@).take(parts@.len() as int) =~= texts(parts@));
    out
}

/// Where `c` first stands in `v`, or the length of `v`.
pub fn find_char(v: &Vec<char>, c: char) -> (r: usize)
    ensures
        r == find(v@, c),
        r <= v@.len(),
{
    let mut i: usize = 0;
    assert(v@.skip(0) =~= v@);
    while i < v.len() && v[i] != c
        invariant
            i <= v@.len(),
            find(v@, c) == i + find(v@.skip(i as int), c),
        decreases v@.len() - i,
    {
        assert(v@.skip(i as int).drop_first() =~= v@.skip(i as int + 1));
        i = i + 1;
    }
    i
}

/// `s` with every `from` replaced by `to`.
pub fn replace_char(s: &str, from: char, to: char) -> (r: String)
    ensures
        r@ == with_char_replaced(s@, from, to),
{
    let v = chars_of(s);
    let mut out = String::new();
    for i in 0..v.len()
        invariant
            v@ == s@,
            out@ == with_char_replaced(s@, from, to).take(i as int),
    {
        if v[i] == from {
            out.push(to);
        } else {
            out.push(v[i]);
        }
        assert(out@ =~= with_char_replaced(s@, from, to).take(i as int + 1));
    }
    out
}

/// Whether `v` starts with `prefix`.
pub fn has_prefix(v: &Vec<char>, prefix: &str) -> (r: bool)
    ensures
        r == starts_with(v@, prefix@),
{
    let p = chars_of(prefix);
    if v.len() < p.len() {
        return false;
    }
    for i in 0..p.len()
        invariant
            p@ == prefix@,
            p@.len() <= v@.len(),
            v@.take(i as int) == p@.take(i as int),
    {
        if v[i] != p[i] {
            assert(v@.take(p@.len() as int)[i as int] != prefix@[i as int]);
            return false;
        }
        assert(v@.take(i as int + 1) =~= v@.take(i as int).push(v@[i as int]));
        assert(p@.take(i as int + 1) =~= p@.take(i as int).push(p@[i as int]));
    }
    assert(p@.take(p@.len() as int) =~= p@);
    true
}

// ---------------------------------------------------------------------------
// What holds of runs

/// A run is not empty and holds only characters of its class.
pub proof fn lemma_runs_in_class(class: CharClass, s: Seq<char>)
    ensures
        s.len() > 0 && in_class(class, s.last()) ==> runs(class, s).len() > 0,
        forall|k: int| 0 <= k < runs(class, s).len() ==> (#[trigger] runs(class, s)[k]).len() > 0,
        forall|k: int, i: int|
            0 <= k < runs(class, s).len() && 0 <= i < runs(class, s)[k].len() ==> in_class(
                class,
                #[trigger] runs(class, s)[k][i],
            ),
    decreases s.len(),
{
    if s.len() > 0 {
        let shorter = s.drop_last();
        lemma_runs_in_class(class, shorter);
        let before = runs(class, shorter);
        let after = runs(class, s);
        assert forall|k: int| 0 <= k < after.len() implies (#[trigger] after[k]).len() > 0 by {
            assert(k < before.len() ==> before[k].len() > 0);
        }
        assert forall|k: int, i: int|
            0 <= k < after.len() && 0 <= i < after[k].len() implies in_class(
            class,
            #[trigger] after[k][i],
        ) by {
            if k < before.len() && i < before[k].len() {
                assert(in_class(class, before[k][i]));
            }
        }
    }
}

/// `find` gives the first place of a character that occurs, and the length
/// of the text for one that does not.
pub proof fn lemma_find(s: Seq<char>, c: char)
    ensures
        find(s, c) <= s.len(),
        find(s, c) < s.len() <==> s.contains(c),
        find(s, c) < s.len() ==> s[find(s, c) as int] == c,
        forall|i: int| 0 <= i < find(s, c) ==> s[i] != c,
    decreases s.len(),
{
    if s.len() > 0 && s[0] != c {
        let rest = s.drop_first();
        lemma_find(rest, c);
        assert forall|i: int| 0 <= i < find(s, c) implies s[i] != c by {
            if i > 0 {
                assert(rest[i - 1] == s[i]);
            }
        }
        if s.contains(c) {
            let i = choose|i: int| 0 <= i < s.len() && s[i] == c;
            assert(rest[i - 1] == c);
        }
    }
}

/// A word behind what does not run into it is one more run.
proof fn lemma_runs_add_word(class: CharClass, t: Seq<char>, w: Seq<char>)
    requires
        t.len() > 0 ==> !in_class(class, t.last()),
        w.len() > 0,
        forall|i: int| 0 <= i < w.len() ==> in_class(class, #[trigger] w[i]),
    ensures
        runs(class, t + w) == runs(class, t).push(w),
    decreases w.len(),
{
    let all = t + w;
    if w.len() == 1 {
        assert(all.drop_last() =~= t);
        assert(w =~= seq![all.last()]);
    } else {
        let shorter = w.drop_last();
        assert(all.drop_last() =~= t + shorter);
        lemma_runs_add_word(class, t, shorter);
        let before = runs(class, t).push(shorter);
        assert(all[all.len() - 2] == w[w.len() - 2]);
        assert(before.drop_last() =~= runs(class, t));
        assert(shorter.push(w.last()) =~= w);
        assert(in_class(class, w[w.len() - 1]));
    }
}

/// Words joined by a character outside their class are the runs of what they
/// were joined to.
pub proof fn lemma_runs_of_joined(class: CharClass, parts: Seq<Seq<char>>, sep: char)
    requires
        !in_class(class, sep),
        forall|k: int| 0 <= k < parts.len() ==> (#[trigger] parts[k]).len() > 0,
        forall|k: int, i: int|
            0 <= k < parts.len() && 0 <= i < parts[k].len() ==> in_class(
                class,
                #[trigger] parts[k][i],
            ),
    ensures
        runs(class, joined(parts, seq![sep])) == parts,
    decreases parts.len(),
{
    if parts.len() == 0 {
    } else {
        let front = parts.drop_last();
        let w = parts.last();
        assert forall|i: int| 0 <= i < w.len() implies in_class(class, #[trigger] w[i]) by {
            assert(in_class(class, parts[parts.len() - 1][i]));
        }
        assert forall|k: int, i: int| 0 <= k < front.len() && 0 <= i < front[k].len() implies in_class(
            class,
            #[trigger] front[k][i],
        ) by {
            assert(in_class(class, parts[k][i]));
        }
        if parts.len() == 1 {
            lemma_runs_add_word(class, Seq::empty(), w);
            assert(Seq::<char>::empty() + w =~= w);
            assert(Seq::<Seq<char>>::empty().push(w) =~= parts);
        } else {
            lemma_runs_of_joined(class, front, sep);
            let t = joined(front, seq![sep]) + seq![sep];
            assert(t.drop_last() =~= joined(front, seq![sep]));
            lemma_runs_add_word(class, t, w);
            assert(front.push(w) =~= parts);
        }
    }
}

/// A decimal numeral is made of digits and is not empty.
pub proof fn lemma_decimal_digits(n: nat)
    ensures
        decimal(n).len() > 0,
        forall|i: int| 0 <= i < decimal(n).len() ==> '0' <= #[trigger] decimal(n)[i] <= '9',
    decreases n,
{
    if n >= 10 {
        lemma_decimal_digits(n / 10);
    }
}

/// Different numbers have different numerals.
pub proof fn lemma_decimal_injective(a: nat, b: nat)
    requires
        decimal(a) == decimal(b),
    ensures
        a == b,
    decreases a,
{
    let s = decimal(a);
    lemma_decimal_digits(a / 10);
    lemma_decimal_digits(b / 10);
    if a < 10 && b < 10 {
        assert(s[0] == digit(a) && s[0] == digit(b));
    } else if a >= 10 && b >= 10 {
        assert(s.drop_last() =~= decimal(a / 10));
        assert(s.drop_last() =~= decimal(b / 10));
        lemma_decimal_injective(a / 10, b / 10);
        assert(s.last() == digit(a % 10) && s.last() == digit(b % 10));
    } else {
        assert(false);
    }
}

/// Whether `t` stands somewhere in `s`.
pub open spec fn contains_text(s: Seq<char>, t: Seq<char>) -> bool {
    exists|i: int| 0 <= i && i + t.len() <= s.len() && #[trigger] s.subrange(i, i + t.len()) == t
}

/// Joining lists joins what they join to.
pub proof fn lemma_joined_concat(a: Seq<Seq<char>>, b: Seq<Seq<char>>, sep: Seq<char>)
    requires
        a.len() > 0,
        b.len() > 0,
    ensures
        joined(a + b, sep) == joined(a, sep) + sep + joined(b, sep),
    decreases b.len(),
{
    let all = a + b;
    let front = b.drop_last();
    assert(all.last() == b.last());
    assert(all.drop_last() =~= a + front);
    if b.len() == 1 {
        assert(a + front =~= a);
    } else {
        lemma_joined_concat(a, front, sep);
        assert(joined(all, sep) =~= joined(a, sep) + sep + joined(b, sep));
    }
}

// ---------------------------------------------------------------------------
// What holds of text

proof fn lemma_trimmed_start(s: Seq<char>) -> (a: int)
    ensures
        0 <= a <= s.len(),
        trimmed_start(s) == s.skip(a),
        forall|i: int| 0 <= i < a ==> white_space(#[trigger] s[i]),
        a < s.len() ==> !white_space(s[a]),
    decreases s.len(),
{
    if s.len() > 0 && white_space(s[0]) {
        let rest = s.drop_first();
        let a = lemma_trimmed_start(rest);
        assert(rest.skip(a) =~= s.skip(a + 1));
        assert forall|i: int| 0 <= i < a + 1 implies white_space(#[trigger] s[i]) by {
            if i > 0 {
                assert(rest[i - 1] == s[i]);
            }
        }
        assert(a < rest.len() ==> rest[a] == s[a + 1]);
        a + 1
    } else {
        assert(s.skip(0) =~= s);
        0
    }
}

proof fn lemma_trimmed_end(s: Seq<char>) -> (b: int)
    ensures
        0 <= b <= s.len(),
        trimmed_end(s) == s.take(b),
        forall|i: int| b <= i < s.len() ==> white_space(#[trigger] s[i]),
        b > 0 ==> !white_space(s[b - 1]),
    decreases s.len(),
{
    if s.len() > 0 && white_space(s.last()) {
        let front = s.drop_last();
        let b = lemma_trimmed_end(front);
        assert(front.take(b) =~= s.take(b));
        assert forall|i: int| b <= i < s.len() implies white_space(#[trigger] s[i]) by {
            if i < front.len() {
                assert(front[i] == s[i]);
            }
        }
        b
    } else {
        assert(s.take(s.len() as int) =~= s);
        s.len() as int
    }
}

/// Trimming takes white space off both ends, all of it, and nothing else: what
/// is left is a stretch of the text with nothing but white space around it,
/// and neither starts nor ends with white space.
pub proof fn law_trim_takes_the_ends_only(s: Seq<char>)
    ensures
        exists|a: int, b: int|
            0 <= a <= b <= s.len() && trimmed(s) == #[trigger] s.subrange(a, b) && (forall|i: int|
                (0 <= i < a || b <= i < s.len()) ==> white_space(#[trigger] s[i])),
        trimmed(s).len() > 0 ==> !white_space(trimmed(s)[0]) && !white_space(trimmed(s).last()),
{
    let a = lemma_trimmed_start(s);
    let rest = s.skip(a);
    let n = lemma_trimmed_end(rest);
    let b = a + n;
    assert(rest.take(n) =~= s.subrange(a, b));
    assert forall|i: int| (0 <= i < a || b <= i < s.len()) implies white_space(#[trigger] s[i]) by {
        if i >= b {
            assert(rest[i - a] == s[i]);
        }
    }
    if trimmed(s).len() > 0 {
        assert(trimmed(s)[0] == s[a]);
        assert(trimmed(s).last() == rest[n - 1]);
    }
}

/// White space around a text does not matter to what trimming leaves, and a
/// text with none around it is left alone.
pub proof fn law_trim_is_told_by_the_middle(left: Seq<char>, s: Seq<char>, right: Seq<char>)
    requires
        s.len() > 0,
        !white_space(s[0]),
        !white_space(s.last()),
        forall|i: int| 0 <= i < left.len() ==> white_space(#[trigger] left[i]),
        forall|i: int| 0 <= i < right.len() ==> white_space(#[trigger] right[i]),
    ensures
        trimmed(left + s + right) == s,
        trimmed(s) == s,
{
    let all = left + s + right;
    let a = lemma_trimmed_start(all);
    assert(all[left.len() as int] == s[0]);
    if a < left.len() {
        assert(all[a] == left[a]);
    }
    assert(a == left.len());
    let rest = all.skip(a);
    assert(rest =~= s + right);
    let b = lemma_trimmed_end(rest);
    assert(rest[s.len() - 1] == s.last());
    if b > s.len() {
        assert(rest[b - 1] == right[b - 1 - s.len()]);
    }
    assert(b == s.len());
    assert(rest.take(b) =~= s);
    assert(trimmed_start(s) == s);
    assert(trimmed_end(s) == s);
}

/// A character outside a class parts the runs: those before it and those
/// behind it do not depend on each other.
proof fn lemma_runs_split(class: CharClass, t: Seq<char>, sep: char, u: Seq<char>)
    requires
        !in_class(class, sep),
    ensures
        runs(class, t + seq![sep] + u) == runs(class, t) + runs(class, u),
    decreases u.len(),
{
    let all = t + seq![sep] + u;
    if u.len() == 0 {
        assert(all.drop_last() =~= t);
        assert(runs(class, t) + runs(class, u) =~= runs(class, t));
    } else {
        let v = u.drop_last();
        lemma_runs_split(class, t, sep, v);
        lemma_runs_in_class(class, v);
        assert(all.drop_last() =~= t + seq![sep] + v);
        let left = runs(class, t);
        let right = runs(class, v);
        let both = left + right;
        if u.len() > 1 {
            assert(all[all.len() - 2] == u[u.len() - 2]);
            assert(v.last() == u[u.len() - 2]);
        } else {
            assert(all[all.len() - 2] == sep);
        }
        if in_class(class, u.last()) {
            if u.len() > 1 && in_class(class, u[u.len() - 2]) {
                assert(both.drop_last() =~= left + right.drop_last());
                assert(both.last() == right.last());
            }
            assert(runs(class, all) =~= left + runs(class, u));
        }
    }
}

/// Text without a character of a class has no runs of it.
proof fn lemma_no_runs(class: CharClass, s: Seq<char>)
    requires
        forall|i: int| 0 <= i < s.len() ==> !in_class(class, #[trigger] s[i]),
    ensures
        runs(class, s) == Seq::<Seq<char>>::empty(),
    decreases s.len(),
{
    if s.len() > 0 {
        let front = s.drop_last();
        assert forall|i: int| 0 <= i < front.len() implies !in_class(class, #[trigger] front[i]) by {
            assert(front[i] == s[i]);
        }
        lemma_no_runs(class, front);
        assert(!in_class(class, s[s.len() - 1]));
    }
}

/// White space parts words: what stands before a white space character and
/// what stands behind it are split into words apart from each other.
pub proof fn law_words_part_at_white_space(t: Seq<char>, space: char, u: Seq<char>)
    requires
        white_space(space),
    ensures
        words(t + seq![space] + u) == words(t) + words(u),
{
    lemma_runs_split(CharClass::Visible, t, space, u);
}

/// Only white space parts words: a text without any is one word, and an empty
/// text has none.
pub proof fn law_only_white_space_parts_words(s: Seq<char>)
    requires
        forall|i: int| 0 <= i < s.len() ==> !white_space(#[trigger] s[i]),
    ensures
        words(s) == if s.len() == 0 {
            Seq::<Seq<char>>::empty()
        } else {
            seq![s]
        },
{
    if s.len() > 0 {
        lemma_runs_add_word(CharClass::Visible, Seq::empty(), s);
        assert(Seq::<char>::empty() + s =~= s);
        assert(Seq::<Seq<char>>::empty().push(s) =~= seq![s]);
    } else {
        assert(s =~= Seq::empty());
    }
}

/// Runs of ASCII letters and digits are parted by every other character, and by
/// no letter or digit.
pub proof fn law_alphanumeric_runs(t: Seq<char>, sep: char, u: Seq<char>, w: Seq<char>)
    requires
        !('0' <= sep <= '9' || 'A' <= sep <= 'Z' || 'a' <= sep <= 'z'),
        w.len() > 0,
        forall|i: int|
            0 <= i < w.len() ==> '0' <= #[trigger] w[i] <= '9' || 'A' <= w[i] <= 'Z' || 'a' <= w[i]
                <= 'z',
    ensures
        runs(CharClass::Alphanumeric, t + seq![sep] + u) == runs(CharClass::Alphanumeric, t) + runs(
            CharClass::Alphanumeric,
            u,
        ),
        runs(CharClass::Alphanumeric, w) == seq![w],
        runs(CharClass::Alphanumeric, Seq::<char>::empty()) == Seq::<Seq<char>>::empty(),
{
    lemma_runs_split(CharClass::Alphanumeric, t, sep, u);
    assert forall|i: int| 0 <= i < w.len() implies in_class(CharClass::Alphanumeric, #[trigger] w[i]) by {
        let c = w[i];
    }
    lemma_runs_add_word(CharClass::Alphanumeric, Seq::empty(), w);
    assert(Seq::<char>::empty() + w =~= w);
    assert(Seq::<Seq<char>>::empty().push(w) =~= seq![w]);
}

/// Joining puts the separator between parts and nowhere else.
pub proof fn law_joined_parts(a: Seq<Seq<char>>, b: Seq<Seq<char>>, one: Seq<char>, sep: Seq<char>)
    ensures
        joined(Seq::empty(), sep) == Seq::<char>::empty(),
        joined(seq![one], sep) == one,
        a.len() > 0 && b.len() > 0 ==> joined(a + b, sep) == joined(a, sep) + sep + joined(b, sep),
{
    if a.len() > 0 && b.len() > 0 {
        lemma_joined_concat(a, b, sep);
    }
}

/// The number that digits write.
pub open spec fn numeral_value(s: Seq<char>) -> int
    decreases s.len(),
{
    if s.len() == 0 {
        0
    } else {
        numeral_value(s.drop_last()) * 10 + (s.last() as u32 - '0' as u32)
    }
}

/// A numeral reads back as its number. It is made of digits and has no zero in
/// front, but for the number zero.
pub proof fn law_decimal_reads_back(n: nat)
    ensures
        numeral_value(decimal(n)) == n,
        decimal(n).len() > 0,
        forall|i: int| 0 <= i < decimal(n).len() ==> '0' <= #[trigger] decimal(n)[i] <= '9',
        n > 0 ==> decimal(n)[0] != '0',
        n == 0 ==> decimal(n).len() == 1,
    decreases n,
{
    lemma_decimal_digits(n);
    let s = decimal(n);
    if n < 10 {
        assert(s.drop_last() =~= Seq::empty());
        assert(numeral_value(s.drop_last()) == 0);
    } else {
        law_decimal_reads_back(n / 10);
        assert(s.drop_last() =~= decimal(n / 10));
        assert(s[0] == decimal(n / 10)[0]);
    }
}

/// A field is filled if there is a text and it is not empty, and it then holds
/// that text.
pub proof fn law_filled(o: Option<Seq<char>>, s: Seq<char>)
    ensures
        filled(o) == Some(s) <==> o == Some(s) && s.len() > 0,
        filled(None) is None,
{
}

/// A text that holds `c` is what stands before its first `c`, that `c`, and
/// what stands behind it; a text without `c` all stands before.
pub proof fn law_split_at_first(s: Seq<char>, c: char)
    ensures
        !before(s, c).contains(c),
        s.contains(c) ==> s == before(s, c) + seq![c] + after(s, c),
        !s.contains(c) ==> before(s, c) == s && after(s, c).len() == 0,
{
    lemma_find(s, c);
    let n = find(s, c) as int;
    if before(s, c).contains(c) {
        let i = choose|i: int| 0 <= i < before(s, c).len() && before(s, c)[i] == c;
        assert(s[i] == c);
    }
    if s.contains(c) {
        assert(s =~= before(s, c) + seq![c] + after(s, c));
    } else {
        assert(s.take(s.len() as int) =~= s);
    }
}

/// Replacing a character touches that character and no other.
pub proof fn law_replaced(s: Seq<char>, from: char, to: char)
    ensures
        with_char_replaced(s, from, to).len() == s.len(),
        forall|i: int|
            0 <= i < s.len() && s[i] == from ==> #[trigger] with_char_replaced(s, from, to)[i] == to,
        forall|i: int|
            0 <= i < s.len() && s[i] != from ==> #[trigger] with_char_replaced(s, from, to)[i] == s[i],
{
}

/// What optional strings and lists of strings are taken for is what they hold.
pub proof fn law_texts_are_what_is_held(o: Option<String>, v: Seq<String>)
    ensures
        o is None ==> opt_text(o) is None,
        o matches Some(s) ==> opt_text(o) == Some(s@),
        texts(v).len() == v.len(),
        forall|i: int| 0 <= i < v.len() ==> #[trigger] texts(v)[i] == v[i]@,
{
}

/// Case mapping of ASCII text goes letter by letter and touches nothing but
/// letters; other text is mapped as std maps it.
pub proof fn law_case_mapping(s: Seq<char>, i: int)
    ensures
        !ascii_text(s) ==> uppercase(s) == unicode_uppercase(s) && lowercase(s)
            == unicode_lowercase(s),
        ascii_text(s) ==> uppercase(s).len() == s.len() && lowercase(s).len() == s.len(),
        ascii_text(s) && 0 <= i < s.len() && 'a' <= s[i] <= 'z' ==> uppercase(s)[i] == (
        (s[i] as u32) - 32) as char && lowercase(s)[i] == s[i],
        ascii_text(s) && 0 <= i < s.len() && 'A' <= s[i] <= 'Z' ==> lowercase(s)[i] == (
        (s[i] as u32) + 32) as char && uppercase(s)[i] == s[i],
        ascii_text(s) && 0 <= i < s.len() && !('a' <= s[i] <= 'z') && !('A' <= s[i] <= 'Z')
            ==> lowercase(s)[i] == s[i] && uppercase(s)[i] == s[i],
        ascii_text(s) <==> forall|k: int| 0 <= k < s.len() ==> (#[trigger] s[k] as u32) < 128,
{
    if forall|k: int| 0 <= k < s.len() ==> (#[trigger] s[k] as u32) < 128 {
        assert forall|k: int| 0 <= k < s.len() implies ascii(#[trigger] s[k]) by {
            assert((s[k] as u32) < 128);
        }
    }
    if ascii_text(s) {
        assert forall|k: int| 0 <= k < s.len() implies (#[trigger] s[k] as u32) < 128 by {
            assert(ascii(s[k]));
        }
    }
}

/// A text starts with a prefix exactly if it is the prefix and something behind it.
pub proof fn law_starts_with(s: Seq<char>, prefix: Seq<char>, rest: Seq<char>)
    ensures
        starts_with(prefix + rest, prefix),
        starts_with(s, prefix) ==> s == prefix + s.skip(prefix.len() as int),
{
    assert((prefix + rest).take(prefix.len() as int) =~= prefix);
    if starts_with(s, prefix) {
        assert(s =~= s.take(prefix.len() as int) + s.skip(prefix.len() as int));
    }
}

} // verus!
