use vstd::prelude::*;
use vstd::string::StringExecFns;

verus! {

/// A `String` holding the given text.
pub fn owned(s: &str) -> (r: String)
    ensures
        r@ == s@,
{
    s.to_owned()
}

/// Whether the text equals `b`.
pub fn same_text(a: &String, b: &str) -> (r: bool)
    ensures
        r == (a@ == b@),
{
    let t = String::from_str(b);
    *a == t
}

/// `a` followed by `b`.
pub fn join2(a: &str, b: &str) -> (r: String)
    ensures
        r@ == a@ + b@,
{
    let s = String::from_str(a);
    s.concat(b)
}

/// `String::push`: appends one character.
#[verifier::external_body]
pub(crate) fn push_char(s: &mut String, c: char)
    ensures
        final(s)@ == old(s)@.push(c),
{
    s.push(c)
}

} // verus!

verus! {

/// The characters of a text, in order.
pub fn chars_of(text: &str) -> (r: Vec<char>)
    ensures
        r@ == text@,
{
    broadcast use vstd::string::group_string_axioms;
    let mut chars: Vec<char> = Vec::new();
    for c in it: text.chars()
        invariant
            chars@ == it.seq().take(it.index()),
    {
        chars.push(c);
    }
    chars
}

} // verus!

verus! {

/// The text made of `chars[start..end]`.
pub fn string_from(chars: &Vec<char>, start: usize, end: usize) -> (r: String)
    requires
        start <= end <= chars@.len(),
    ensures
        r@ == chars@.subrange(start as int, end as int),
{
    let mut s = String::new();
    let mut i = start;
    while i < end
        invariant
            start <= i <= end <= chars@.len(),
            s@ == chars@.subrange(start as int, i as int),
        decreases end - i,
    {
        push_char(&mut s, chars[i]);
        assert(chars@.subrange(start as int, i + 1) =~= chars@.subrange(start as int, i as int).push(chars@[i as int]));
        i = i + 1;
    }
    s
}

/// Whether a character has the Unicode `White_Space` property, which is
/// what `char::is_whitespace` and `str::trim` go by.
pub open spec fn is_white_space(c: char) -> bool {
    let u = c as u32;
    ||| 0x09 <= u <= 0x0D
    ||| u == 0x20
    ||| u == 0x85
    ||| u == 0xA0
    ||| u == 0x1680
    ||| 0x2000 <= u <= 0x200A
    ||| u == 0x2028
    ||| u == 0x2029
    ||| u == 0x202F
    ||| u == 0x205F
    ||| u == 0x3000
}

/// `char::is_whitespace`.
pub fn is_whitespace(c: char) -> (r: bool)
    ensures
        r == is_white_space(c),
{
    let u = c as u32;
    (0x09 <= u && u <= 0x0D) || u == 0x20 || u == 0x85 || u == 0xA0 || u == 0x1680 || (0x2000
        <= u && u <= 0x200A) || u == 0x2028 || u == 0x2029 || u == 0x202F || u == 0x205F || u
        == 0x3000
}

/// Whether every character of `s` is white space (so that `trim` leaves nothing).
pub open spec fn all_white(s: Seq<char>) -> bool {
    forall|i: int| 0 <= i < s.len() ==> is_white_space(#[trigger] s[i])
}

/// Whether `chars[start..end]` is all white space.
pub fn blank_between(chars: &Vec<char>, start: usize, end: usize) -> (r: bool)
    requires
        start <= end <= chars@.len(),
    ensures
        r == all_white(chars@.subrange(start as int, end as int)),
{
    let mut i = start;
    while i < end
        invariant
            start <= i <= end <= chars@.len(),
            forall|k: int| start <= k < i ==> is_white_space(#[trigger] chars@[k]),
        decreases end - i,
    {
        if !is_whitespace(chars[i]) {
            assert(!is_white_space(chars@.subrange(start as int, end as int)[i - start]));
            return false;
        }
        i = i + 1;
    }
    assert forall|k: int| 0 <= k < end - start implies is_white_space(
        #[trigger] chars@.subrange(start as int, end as int)[k],
    ) by {
        assert(chars@.subrange(start as int, end as int)[k] == chars@[start + k]);
    }
    true
}

} // verus!

verus! {

/// The parts with `sep` between each two of them.
pub open spec fn joined(parts: Seq<Seq<char>>, sep: Seq<char>) -> Seq<char>
    decreases parts.len(),
{
    if parts.len() == 0 {
        Seq::empty()
    } else if parts.len() == 1 {
        parts[0]
    } else {
        joined(parts.drop_last(), sep) + sep + parts.last()
    }
}

/// The first `count` texts (all of them when there are fewer), joined by `sep`.
pub fn join_texts(parts: &Vec<String>, count: usize, sep: &str) -> (r: String)
    ensures
        r@ == joined(
            parts@.map_values(|s: String| s@).take(
                if count < parts@.len() { count as int } else { parts@.len() as int },
            ),
            sep@,
        ),
{
    let n: usize = if count < parts.len() { count } else { parts.len() };
    let ghost views = parts@.map_values(|s: String| s@);
    let mut r = String::new();
    let mut i: usize = 0;
    assert(views.take(0) =~= Seq::<Seq<char>>::empty());
    while i < n
        invariant
            i <= n <= parts@.len(),
            views == parts@.map_values(|s: String| s@),
            r@ == joined(views.take(i as int), sep@),
        decreases n - i,
    {
        assert(views.take(i + 1).drop_last() =~= views.take(i as int));
        if i > 0 {
            r.append(sep);
        }
        r.append(parts[i].as_str());
        assert(views.take(i + 1).last() == parts@[i as int]@);
        if i == 0 {
            assert(r@ =~= joined(views.take(1), sep@));
        }
        i = i + 1;
    }
    r
}

} // verus!

verus! {

/// The decimal digit for `d < 10`.
pub open spec fn digit(d: nat) -> char {
    (('0' as u32) + d) as char
}

/// The decimal numeral of `n`, as `Display` prints unsigned integers.
pub open spec fn decimal(n: nat) -> Seq<char>
    decreases n,
{
    if n < 10 {
        seq![digit(n)]
    } else {
        decimal(n / 10).push(digit(n % 10))
    }
}

/// The decimal numeral of `n`.
pub fn decimal_string(n: u64) -> (r: String)
    ensures
        r@ == decimal(n as nat),
{
    // digits, least significant first
    let mut digits: Vec<char> = Vec::new();
    let mut m: u64 = n;
    let ghost mut tail: Seq<char> = Seq::empty();
    loop
        invariant_except_break
            decimal(n as nat) == decimal(m as nat) + tail,
        invariant
            m <= n,
            digits@.len() == tail.len(),
            forall|k: int| 0 <= k < tail.len() ==> #[trigger] tail[k] == digits@[tail.len() - 1 - k],
        ensures
            decimal(n as nat) == tail,
            digits@.len() == tail.len(),
            forall|k: int| 0 <= k < tail.len() ==> #[trigger] tail[k] == digits@[tail.len() - 1 - k],
        decreases m,
    {
        let d = m % 10;
        let c: char = char_of_digit(d);
        digits.push(c);
        proof {
            if m >= 10 {
                assert(decimal(m as nat) == decimal((m / 10) as nat).push(digit((m % 10) as nat)));
                assert(decimal(n as nat) =~= decimal((m / 10) as nat) + seq![c] + tail);
            } else {
                assert(decimal(m as nat) == seq![c]);
            }
            tail = seq![c] + tail;
        }
        if m < 10 {
            assert(decimal(n as nat) =~= tail);
            break;
        }
        m = m / 10;
    }
    let mut r = String::new();
    let len = digits.len();
    let mut i: usize = 0;
    while i < len
        invariant
            i <= len,
            len == digits@.len(),
            len == tail.len(),
            decimal(n as nat) == tail,
            forall|k: int| 0 <= k < tail.len() ==> #[trigger] tail[k] == digits@[tail.len() - 1 - k],
            r@ == tail.take(i as int),
        decreases len - i,
    {
        push_char(&mut r, digits[len - 1 - i]);
        assert(r@ =~= tail.take(i + 1));
        i = i + 1;
    }
    assert(tail.take(len as int) =~= tail);
    r
}

fn char_of_digit(d: u64) -> (c: char)
    requires
        d < 10,
    ensures
        c == digit(d as nat),
{
    if d == 0 { '0' }
    else if d == 1 { '1' }
    else if d == 2 { '2' }
    else if d == 3 { '3' }
    else if d == 4 { '4' }
    else if d == 5 { '5' }
    else if d == 6 { '6' }
    else if d == 7 { '7' }
    else if d == 8 { '8' }
    else { '9' }
}

} // verus!

verus! {

/// Lexicographic order on texts from position `i` on, by code point (the
/// order of `str`'s `Ord`, since UTF-8 keeps code-point order).
pub open spec fn text_lt_at(a: Seq<char>, b: Seq<char>, i: int) -> bool
    decreases a.len() - i,
{
    if i < 0 || i >= a.len() {
        0 <= i < b.len()
    } else if i >= b.len() {
        false
    } else if a[i] != b[i] {
        (a[i] as u32) < (b[i] as u32)
    } else {
        text_lt_at(a, b, i + 1)
    }
}

/// Whether `a` comes strictly before `b`.
pub open spec fn text_lt(a: Seq<char>, b: Seq<char>) -> bool {
    text_lt_at(a, b, 0)
}

pub proof fn lemma_text_lt_irreflexive(a: Seq<char>, i: int)
    requires
        0 <= i,
    ensures
        !text_lt_at(a, a, i),
    decreases a.len() - i,
{
    if i < a.len() {
        lemma_text_lt_irreflexive(a, i + 1);
    }
}

pub proof fn lemma_text_lt_transitive(a: Seq<char>, b: Seq<char>, c: Seq<char>, i: int)
    requires
        0 <= i,
        text_lt_at(a, b, i),
        text_lt_at(b, c, i),
    ensures
        text_lt_at(a, c, i),
    decreases a.len() - i,
{
    if i < a.len() && i < b.len() && i < c.len() && a[i] == b[i] && b[i] == c[i] {
        lemma_text_lt_transitive(a, b, c, i + 1);
    }
}

/// Whether text `a` comes strictly before text `b`.
pub fn text_less(a: &String, b: &String) -> (r: bool)
    ensures
        r == text_lt(a@, b@),
{
    let x = chars_of(a.as_str());
    let y = chars_of(b.as_str());
    let mut i: usize = 0;
    while i < x.len() && i < y.len()
        invariant
            x@ == a@,
            y@ == b@,
            i <= x@.len(),
            i <= y@.len(),
            text_lt(a@, b@) == text_lt_at(a@, b@, i as int),
        decreases x@.len() - i,
    {
        if x[i] != y[i] {
            return (x[i] as u32) < (y[i] as u32);
        }
        i = i + 1;
    }
    i < y.len() && i >= x.len()
}

} // verus!
