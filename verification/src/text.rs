//! Characters, slashes and numbers: the text operations that the rules of the
//! other modules are stated with.

use vstd::prelude::*;
use vstd::string::StringExecFns;

verus! {

/// `std::string::String::push`: appends the given character to the end of the
/// string.
pub assume_specification[ String::push ](s: &mut String, c: char)
    ensures
        final(s)@ == old(s)@.push(c),
;

/// `s` without the copies of `c` that it starts with.
pub open spec fn trim_start(s: Seq<char>, c: char) -> Seq<char>
    decreases s.len(),
{
    if s.len() > 0 && s[0] == c {
        trim_start(s.drop_first(), c)
    } else {
        s
    }
}

/// `s` without the copies of `c` that it ends with.
pub open spec fn trim_end(s: Seq<char>, c: char) -> Seq<char>
    decreases s.len(),
{
    if s.len() > 0 && s.last() == c {
        trim_end(s.drop_last(), c)
    } else {
        s
    }
}

/// `s` without the copies of `c` at either end.
pub open spec fn trim(s: Seq<char>, c: char) -> Seq<char> {
    trim_end(trim_start(s, c), c)
}

/// `pat` stands in `s` at position `i`.
pub open spec fn occurs_at(s: Seq<char>, pat: Seq<char>, i: int) -> bool {
    &&& 0 <= i
    &&& i + pat.len() <= s.len()
    &&& s.subrange(i, i + pat.len()) == pat
}

/// `pat` stands nowhere in `s`.
pub open spec fn absent(s: Seq<char>, pat: Seq<char>) -> bool {
    forall|i: int| !#[trigger] occurs_at(s, pat, i)
}

/// `s` is `left`, then the first occurrence of `pat`, then `right`.
pub open spec fn splits_at_first(
    s: Seq<char>,
    pat: Seq<char>,
    left: Seq<char>,
    right: Seq<char>,
) -> bool {
    &&& s == left + pat + right
    &&& forall|i: int| 0 <= i < left.len() ==> !#[trigger] occurs_at(s, pat, i)
}

/// `c` with the ASCII lower-case letters raised to upper case.
pub open spec fn upper_char(c: char) -> char {
    if 'a' <= c && c <= 'z' {
        (c as u32 - 32) as char
    } else {
        c
    }
}

/// `s` with its ASCII letters in upper case and every other character as it is.
pub open spec fn upper(s: Seq<char>) -> Seq<char> {
    s.map_values(|c: char| upper_char(c))
}

/// `a` comes before `b` in the order of code points, position by position, a
/// text coming before its own continuations.
pub open spec fn text_less(a: Seq<char>, b: Seq<char>) -> bool {
    exists|k: int| #[trigger] differ_first(a, b, k)
}

/// `a` and `b` agree before position `k`, and there `a` is smaller or has ended.
pub open spec fn differ_first(a: Seq<char>, b: Seq<char>, k: int) -> bool {
    &&& 0 <= k <= a.len()
    &&& k < b.len()
    &&& a.take(k) == b.take(k)
    &&& k == a.len() || a[k] < b[k]
}

/// The decimal digit for a value below ten.
pub open spec fn digit(d: nat) -> char {
    (d + 48) as char
}

/// `n` in decimal, without leading zeros.
pub open spec fn decimal(n: nat) -> Seq<char>
    decreases n,
{
    if n < 10 {
        seq![digit(n)]
    } else {
        decimal(n / 10).push(digit(n % 10))
    }
}

/// The texts of a list of strings.
pub open spec fn texts(list: Seq<String>) -> Seq<Seq<char>> {
    list.map_values(|s: String| s@)
}

/// The characters of a text.
pub fn chars_of(s: &str) -> (r: Vec<char>)
    ensures
        r@ == s@,
{
    let mut r: Vec<char> = Vec::new();
    for c in it: s.chars()
        invariant
            r@ == it.seq().take(it.index() as int),
    {
        proof {
            let i = it.index() as int;
            assert(it.seq().take(i + 1) == it.seq().take(i).push(it.seq()[i]));
        }
        r.push(c);
    }
    proof {
        assert(s@.take(s@.len() as int) == s@);
    }
    r
}

/// The text made of the characters from `from` up to `to`.
pub fn text_of(chars: &Vec<char>, from: usize, to: usize) -> (r: String)
    requires
        from <= to <= chars@.len(),
    ensures
        r@ == chars@.subrange(from as int, to as int),
{
    let mut r: String = String::new();
    let mut i: usize = from;
    while i < to
        invariant
            from <= i <= to <= chars@.len(),
            r@ == chars@.subrange(from as int, i as int),
        decreases to - i,
    {
        r.push(chars[i]);
        proof {
            assert(chars@.subrange(from as int, i + 1) == chars@.subrange(
                from as int,
                i as int,
            ).push(chars@[i as int]));
        }
        i += 1;
    }
    r
}

/// Dropping leading copies of `c` one by one arrives at the first other
/// character.
pub proof fn lemma_trim_start(s: Seq<char>, c: char, k: int)
    requires
        0 <= k <= s.len(),
        forall|j: int| 0 <= j < k ==> s[j] == c,
        k == s.len() || s[k] != c,
    ensures
        trim_start(s, c) == s.skip(k),
    decreases k,
{
    if k > 0 {
        lemma_trim_start(s.drop_first(), c, k - 1);
        assert(s.drop_first().skip(k - 1) == s.skip(k));
    } else {
        assert(s.skip(0) == s);
    }
}

/// Dropping trailing copies of `c` one by one arrives at the last other
/// character.
pub proof fn lemma_trim_end(s: Seq<char>, c: char, k: int)
    requires
        0 <= k <= s.len(),
        forall|j: int| k <= j < s.len() ==> s[j] == c,
        k == 0 || s[k - 1] != c,
    ensures
        trim_end(s, c) == s.take(k),
    decreases s.len() - k,
{
    if k < s.len() {
        lemma_trim_end(s.drop_last(), c, k);
        assert(s.drop_last().take(k) == s.take(k));
    } else {
        assert(s.take(k) == s);
    }
}

/// Trimming never makes a text longer.
pub proof fn lemma_trim_end_is_shorter(s: Seq<char>, c: char)
    ensures
        trim_end(s, c).len() <= s.len(),
    decreases s.len(),
{
    if s.len() > 0 && s.last() == c {
        lemma_trim_end_is_shorter(s.drop_last(), c);
    }
}

/// The text without the copies of `c` that it starts with.
pub fn trimmed_start(s: &str, c: char) -> (r: String)
    ensures
        r@ == trim_start(s@, c),
{
    let chars: Vec<char> = chars_of(s);
    let mut k: usize = 0;
    while k < chars.len() && chars[k] == c
        invariant
            0 <= k <= chars@.len(),
            forall|j: int| 0 <= j < k ==> chars@[j] == c,
        decreases chars@.len() - k,
    {
        k += 1;
    }
    proof {
        lemma_trim_start(s@, c, k as int);
    }
    text_of(&chars, k, chars.len())
}

/// The text without the copies of `c` that it ends with.
pub fn trimmed_end(s: &str, c: char) -> (r: String)
    ensures
        r@ == trim_end(s@, c),
{
    let chars: Vec<char> = chars_of(s);
    let mut k: usize = chars.len();
    while k > 0 && chars[k - 1] == c
        invariant
            0 <= k <= chars@.len(),
            forall|j: int| k <= j < chars@.len() ==> chars@[j] == c,
        decreases k,
    {
        k -= 1;
    }
    proof {
        lemma_trim_end(s@, c, k as int);
    }
    text_of(&chars, 0, k)
}

/// The text without the copies of `c` at either end.
pub fn trimmed(s: &str, c: char) -> (r: String)
    ensures
        r@ == trim(s@, c),
{
    let front: String = trimmed_start(s, c);
    trimmed_end(front.as_str(), c)
}

/// Tells whether `pat` stands in `s` at position `i`.
fn stands_at(s: &Vec<char>, pat: &Vec<char>, i: usize) -> (r: bool)
    requires
        i <= s@.len(),
    ensures
        r == occurs_at(s@, pat@, i as int),
{
    if s.len() - i < pat.len() {
        return false;
    }
    let n: usize = s.len();
    let mut k: usize = 0;
    while k < pat.len()
        invariant
            n == s@.len(),
            i + pat@.len() <= s@.len(),
            k <= pat@.len(),
            forall|j: int| 0 <= j < k ==> s@[i + j] == pat@[j],
        decreases pat@.len() - k,
    {
        if s[i + k] != pat[k] {
            proof {
                assert(s@.subrange(i as int, i + pat@.len())[k as int] != pat@[k as int]);
            }
            return false;
        }
        k += 1;
    }
    proof {
        assert(s@.subrange(i as int, i + pat@.len()) == pat@);
    }
    true
}

/// Splits a text round the first occurrence of `pat`.
pub fn split_first(s: &str, pat: &str) -> (r: Option<(String, String)>)
    ensures
        match r {
            Some((left, right)) => splits_at_first(s@, pat@, left@, right@),
            None => absent(s@, pat@),
        },
{
    let chars: Vec<char> = chars_of(s);
    let pattern: Vec<char> = chars_of(pat);
    let mut i: usize = 0;
    while i < chars.len()
        invariant
            chars@ == s@,
            pattern@ == pat@,
            i <= chars@.len(),
            forall|j: int| 0 <= j < i ==> !#[trigger] occurs_at(s@, pat@, j),
        decreases chars@.len() - i,
    {
        if stands_at(&chars, &pattern, i) {
            let left: String = text_of(&chars, 0, i);
            let right: String = text_of(&chars, i + pattern.len(), chars.len());
            proof {
                assert(left@ + pat@ + right@ == s@) by {
                    assert(s@.subrange(i as int, i + pat@.len()) == pat@);
                    let n = pat@.len();
                    assert forall|k: int| 0 <= k < s@.len() implies (left@ + pat@ + right@)[k]
                        == s@[k] by {
                        if i <= k < i + n {
                            assert(s@.subrange(i as int, i + n)[k - i] == s@[k]);
                        }
                    }
                    assert(left@ + pat@ + right@ =~= s@);
                }
            }
            return Some((left, right));
        }
        i += 1;
    }
    if stands_at(&chars, &pattern, i) {
        let left: String = text_of(&chars, 0, i);
        proof {
            assert(s@.subrange(i as int, i + pat@.len()) == pat@);
            assert(pat@.len() == 0);
            assert(left@ + pat@ + Seq::<char>::empty() == s@);
        }
        return Some((left, String::new()));
    }
    proof {
        assert forall|j: int| !#[trigger] occurs_at(s@, pat@, j) by {
            if j > s@.len() {
                assert(!occurs_at(s@, pat@, j));
            }
        }
    }
    None
}

/// Tells whether `pat` stands anywhere in `s`.
pub fn contains_text(s: &str, pat: &str) -> (r: bool)
    ensures
        r == !absent(s@, pat@),
{
    match split_first(s, pat) {
        Some((left, _right)) => {
            proof {
                let i = left@.len() as int;
                assert(s@.subrange(i, i + pat@.len()) == pat@);
                assert(occurs_at(s@, pat@, i));
            }
            true
        },
        None => false,
    }
}

/// Tells whether two texts are the same.
pub fn same_text(a: &str, b: &str) -> (r: bool)
    ensures
        r == (a@ == b@),
{
    a.to_owned() == b.to_owned()
}

/// Tells whether `s` starts with `prefix`.
pub fn starts_with(s: &str, prefix: &str) -> (r: bool)
    ensures
        r == prefix@.is_prefix_of(s@),
{
    let chars: Vec<char> = chars_of(s);
    let pattern: Vec<char> = chars_of(prefix);
    let r: bool = stands_at(&chars, &pattern, 0);
    proof {
        assert(prefix@.is_prefix_of(s@) == occurs_at(s@, prefix@, 0));
    }
    r
}

/// The text with its ASCII letters in upper case.
pub fn uppercased(s: &str) -> (r: String)
    ensures
        r@ == upper(s@),
{
    let chars: Vec<char> = chars_of(s);
    let mut r: String = String::new();
    let mut i: usize = 0;
    while i < chars.len()
        invariant
            chars@ == s@,
            i <= chars@.len(),
            r@ == upper(s@).take(i as int),
        decreases chars@.len() - i,
    {
        let c: char = chars[i];
        if 'a' <= c && c <= 'z' {
            let low: u8 = c as u8;
            let high: u8 = low - 32;
            r.push(high as char);
        } else {
            r.push(c);
        }
        proof {
            assert(upper(s@).take(i + 1) == upper(s@).take(i as int).push(upper(s@)[i as int]));
        }
        i += 1;
    }
    proof {
        assert(upper(s@).take(s@.len() as int) == upper(s@));
    }
    r
}

/// Tells whether `a` comes before `b` in the order of code points.
pub fn comes_before(a: &str, b: &str) -> (r: bool)
    ensures
        r == text_less(a@, b@),
{
    let x: Vec<char> = chars_of(a);
    let y: Vec<char> = chars_of(b);
    let mut k: usize = 0;
    while k < x.len() && k < y.len() && x[k] == y[k]
        invariant
            x@ == a@,
            y@ == b@,
            k <= x@.len(),
            k <= y@.len(),
            a@.take(k as int) == b@.take(k as int),
        decreases x@.len() - k,
    {
        proof {
            assert(a@.take(k + 1) == a@.take(k as int).push(a@[k as int]));
            assert(b@.take(k + 1) == b@.take(k as int).push(b@[k as int]));
        }
        k += 1;
    }
    let r: bool = k < y.len() && (k == x.len() || x[k] < y[k]);
    proof {
        if r {
            assert(differ_first(a@, b@, k as int));
        }
        assert forall|j: int| #[trigger] differ_first(a@, b@, j) implies r by {
            lemma_first_difference(a@, b@, j, k as int);
        }
    }
    r
}

/// Two texts that agree before `k` and part there first differ nowhere else.
proof fn lemma_first_difference(a: Seq<char>, b: Seq<char>, j: int, k: int)
    requires
        differ_first(a, b, j),
        0 <= k <= a.len(),
        k <= b.len(),
        a.take(k) == b.take(k),
        k == a.len() || k == b.len() || a[k] != b[k],
    ensures
        j == k,
{
    if j < k {
        assert(a.take(k)[j] == a[j]);
        assert(b.take(k)[j] == b[j]);
    } else if k < j {
        assert(a.take(j)[k] == a[k]);
        assert(b.take(j)[k] == b[k]);
    }
}

/// A number in decimal.
pub fn decimal_of(n: u64) -> (r: String)
    ensures
        r@ == decimal(n as nat),
    decreases n,
{
    let last: u8 = (n % 10) as u8;
    let shown: u8 = last + 48;
    if n < 10 {
        let mut r: String = String::new();
        r.push(shown as char);
        r
    } else {
        let mut r: String = decimal_of(n / 10);
        r.push(shown as char);
        r
    }
}

/// The texts, one after the other, with a separator between them.
pub open spec fn joined(list: Seq<Seq<char>>, separator: Seq<char>) -> Seq<char>
    decreases list.len(),
{
    if list.len() == 0 {
        Seq::empty()
    } else if list.len() == 1 {
        list[0]
    } else {
        joined(list.drop_last(), separator) + separator + list.last()
    }
}

/// The texts, one after the other, with a separator between them.
pub fn join(list: &Vec<String>, separator: &str) -> (r: String)
    ensures
        r@ == joined(texts(list@), separator@),
{
    let mut r: String = String::new();
    let mut i: usize = 0;
    let ghost all = texts(list@);
    proof {
        assert(all.take(0) == Seq::<Seq<char>>::empty());
    }
    while i < list.len()
        invariant
            all == texts(list@),
            i <= list@.len(),
            r@ == joined(all.take(i as int), separator@),
        decreases list@.len() - i,
    {
        proof {
            assert(all.take(i + 1).drop_last() == all.take(i as int));
            assert(all.take(i + 1).last() == list@[i as int]@);
            if i == 0 {
                assert(r@ + list@[0]@ == list@[0]@);
            }
        }
        if i > 0 {
            r.append(separator);
        }
        r.append(list[i].as_str());
        i += 1;
    }
    proof {
        assert(all.take(list@.len() as int) == all);
    }
    r
}

/// `n` copies of a character.
pub open spec fn copies(c: char, n: nat) -> Seq<char> {
    Seq::new(n, |i: int| c)
}

/// Trimming undoes writing a character any number of times in front of a text and
/// behind it, where the text itself neither starts nor ends with the character.
pub proof fn law_trimming_undoes_padding(c: char, n: nat, t: Seq<char>, m: nat)
    requires
        t.len() > 0 ==> t[0] != c && t.last() != c,
    ensures
        trim_start(copies(c, n) + t, c) == t,
        trim_end(t + copies(c, m), c) == t,
        trim(copies(c, n) + t + copies(c, m), c) == t,
{
    let a = copies(c, n);
    let b = copies(c, m);
    lemma_trim_start(a + t, c, n as int);
    assert((a + t).skip(n as int) =~= t);
    lemma_trim_end(t + b, c, t.len() as int);
    assert((t + b).take(t.len() as int) =~= t);
    let s = a + t + b;
    if t.len() > 0 {
        lemma_trim_start(s, c, n as int);
        assert(s[n as int] == t[0]);
        assert(s.skip(n as int) =~= t + b);
    } else {
        lemma_trim_start(s, c, s.len() as int);
        assert(s.skip(s.len() as int) =~= Seq::<char>::empty());
        assert(t =~= Seq::<char>::empty());
    }
}

/// Raising a text to upper case moves the codes 97 to 122 down by 32 and leaves every
/// other character as it is.
pub proof fn law_upper_case(s: Seq<char>)
    ensures
        upper(s).len() == s.len(),
        forall|i: int|
            0 <= i < s.len() ==> if 97 <= s[i] as u32 && s[i] as u32 <= 122 {
                (#[trigger] upper(s)[i]) as u32 == s[i] as u32 - 32
            } else {
                upper(s)[i] == s[i]
            },
{
}

/// `pat` is absent from a text exactly where the text is not something, `pat`, and
/// something more.
pub proof fn law_absent_texts(s: Seq<char>, pat: Seq<char>)
    ensures
        absent(s, pat) <==> forall|left: Seq<char>, right: Seq<char>|
            s != #[trigger] (left + pat + right),
{
    let n = pat.len() as int;
    assert forall|left: Seq<char>, right: Seq<char>| absent(s, pat) implies s != #[trigger] (left
        + pat + right) by {
        if s == left + pat + right {
            let i = left.len() as int;
            assert(s.subrange(i, i + n) =~= pat);
            assert(occurs_at(s, pat, i));
        }
    }
    if !absent(s, pat) {
        let i = choose|i: int| #[trigger] occurs_at(s, pat, i);
        lemma_text_around(s, pat, i);
        assert(s == s.take(i) + pat + s.skip(i + n));
    }
}

/// A text is what stands in front of an occurrence, the occurrence, and the rest.
proof fn lemma_text_around(s: Seq<char>, pat: Seq<char>, i: int)
    requires
        occurs_at(s, pat, i),
    ensures
        s == s.take(i) + pat + s.skip(i + pat.len()),
{
    let n = pat.len() as int;
    let t = s.take(i) + pat + s.skip(i + n);
    assert forall|k: int| 0 <= k < s.len() implies s[k] == t[k] by {
        if i <= k < i + n {
            assert(s.subrange(i, i + n)[k - i] == s[k]);
        }
    }
    assert(s =~= t);
}

/// A text is split at the first occurrence: nothing shorter stands in front of another
/// one.
pub proof fn law_splitting_is_at_the_first(
    s: Seq<char>,
    pat: Seq<char>,
    left: Seq<char>,
    right: Seq<char>,
)
    ensures
        splits_at_first(s, pat, left, right) <==> s == left + pat + right && (forall|
            l: Seq<char>,
            r: Seq<char>,
        |
            s == #[trigger] (l + pat + r) ==> left.len() <= l.len()),
{
    let n = pat.len() as int;
    if splits_at_first(s, pat, left, right) {
        assert forall|l: Seq<char>, r: Seq<char>| s == #[trigger] (l + pat + r) implies left.len()
            <= l.len() by {
            let i = l.len() as int;
            assert(s.subrange(i, i + n) =~= pat);
            assert(occurs_at(s, pat, i));
        }
    }
    if s == left + pat + right && (forall|l: Seq<char>, r: Seq<char>|
        s == #[trigger] (l + pat + r) ==> left.len() <= l.len()) {
        assert forall|i: int| 0 <= i < left.len() implies !#[trigger] occurs_at(s, pat, i) by {
            if occurs_at(s, pat, i) {
                lemma_text_around(s, pat, i);
                assert(s == s.take(i) + pat + s.skip(i + n));
            }
        }
    }
}

/// Texts are ordered by the first character in which they differ, whatever follows.
pub proof fn law_order_goes_by_the_first_difference(
    front: Seq<char>,
    a: char,
    b: char,
    x: Seq<char>,
    y: Seq<char>,
)
    requires
        a != b,
    ensures
        text_less(front.push(a) + x, front.push(b) + y) == ((a as u32) < (b as u32)),
{
    let s = front.push(a) + x;
    let t = front.push(b) + y;
    let k = front.len() as int;
    assert(s.take(k) =~= front);
    assert(t.take(k) =~= front);
    if (a as u32) < (b as u32) {
        assert(differ_first(s, t, k));
    }
    if text_less(s, t) {
        let j = choose|j: int| #[trigger] differ_first(s, t, j);
        lemma_first_difference(s, t, j, k);
    }
}

/// A text comes before its continuations, and never before itself.
pub proof fn law_order_of_continuations(front: Seq<char>, rest: Seq<char>)
    ensures
        text_less(front, front + rest) == (rest.len() > 0),
        !text_less(front + rest, front),
{
    let t = front + rest;
    let k = front.len() as int;
    assert(front.take(k) =~= t.take(k));
    if rest.len() > 0 {
        assert(differ_first(front, t, k));
    }
    if text_less(front, t) {
        let j = choose|j: int| #[trigger] differ_first(front, t, j);
        lemma_first_difference(front, t, j, k);
    }
    if text_less(t, front) {
        let j = choose|j: int| #[trigger] differ_first(t, front, j);
        lemma_first_difference(t, front, j, k);
    }
}

/// The number that decimal digits tell.
pub open spec fn decimal_value(s: Seq<char>) -> int
    decreases s.len(),
{
    if s.len() == 0 {
        0
    } else {
        10 * decimal_value(s.drop_last()) + (s.last() as u32 - 48)
    }
}

/// A number in decimal is made of the codes 48 to 57, tells the number, and does not
/// start with a zero unless it is zero alone.
pub proof fn law_decimal_tells_the_number(n: nat)
    ensures
        decimal_value(decimal(n)) == n,
        forall|i: int|
            0 <= i < decimal(n).len() ==> 48 <= (#[trigger] decimal(n)[i]) as u32 && decimal(n)[i]
                as u32 <= 57,
        decimal(n).len() > 0,
        decimal(n)[0] as u32 == 48 ==> decimal(n).len() == 1,
    decreases n,
{
    let s = decimal(n);
    if n >= 10 {
        law_decimal_tells_the_number(n / 10);
        assert(s.drop_last() =~= decimal(n / 10));
        assert(s[0] == decimal(n / 10)[0]);
        if s[0] as u32 == 48 {
            assert(decimal(n / 10).len() == 1);
            assert(decimal_value(decimal(n / 10)) == 0) by {
                reveal_with_fuel(decimal_value, 2);
            }
        }
    } else {
        assert(s.drop_last() =~= Seq::<char>::empty());
        reveal_with_fuel(decimal_value, 2);
    }
}

/// The texts of a list are those of its strings, one by one.
pub proof fn law_texts_are_those_of_the_strings(list: Seq<String>)
    ensures
        texts(list).len() == list.len(),
        forall|i: int| 0 <= i < list.len() ==> #[trigger] texts(list)[i] == list[i]@,
{
}

/// Joining puts the separator between texts, and nowhere else.
pub proof fn law_joining(list: Seq<Seq<char>>, last: Seq<char>, separator: Seq<char>)
    ensures
        joined(Seq::empty(), separator) == Seq::<char>::empty(),
        joined(seq![last], separator) == last,
        list.len() > 0 ==> joined(list.push(last), separator) == joined(list, separator)
            + separator + last,
{
    reveal_with_fuel(joined, 2);
    let more = list.push(last);
    assert(more.drop_last() =~= list);
    assert(seq![last].drop_last() =~= Seq::<Seq<char>>::empty());
    assert(joined(seq![last], separator) =~= last);
}

} // verus!
