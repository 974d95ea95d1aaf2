//! Character-level string operations used by the code generators: ASCII
//! lower-casing, decimal rendering of integers, joining, removing and
//! replacing characters.
use vstd::prelude::*;

verus! {

/// Appends one character to a string.
///
/// Trusted: `String::push`, which the standard library documents as appending
/// the character to the end of the string.
#[verifier::external_body]
pub(crate) fn push_char(s: &mut String, c: char)
    ensures
        final(s)@ == old(s)@.push(c),
{
    s.push(c);
}

/// The Unicode lower-case form of a string, as `str::to_lowercase` computes
/// it from the Unicode character tables.
pub uninterp spec fn unicode_lowercase(s: Seq<char>) -> Seq<char>;

/// Lower-cases a string by the Unicode rules.
///
/// Trusted: `str::to_lowercase`; its result is taken to depend on the
/// characters of `s` alone, under the name `unicode_lowercase`. What that
/// function is on given characters is not stated.
#[verifier::external_body]
pub(crate) fn to_lowercase(s: &str) -> (res: String)
    ensures
        res@ == unicode_lowercase(s@),
{
    s.to_lowercase()
}

/// Whether a string equals a literal.
pub fn eq_str(s: &String, lit: &str) -> (res: bool)
    ensures
        res == (s@ == lit@),
{
    let l = String::from_str(lit);
    *s == l
}

/// `c` is an upper-case ASCII letter.
pub open spec fn is_ascii_upper(c: char) -> bool {
    'A' <= c && c <= 'Z'
}

/// The ASCII lower-case form of one character: `A..=Z` move to `a..=z`,
/// everything else stays.
pub open spec fn ascii_lower_char(c: char) -> char {
    if is_ascii_upper(c) {
        ((c as int) + 32) as char
    } else {
        c
    }
}

/// The ASCII lower-case form of a string, character by character.
pub open spec fn ascii_lower(s: Seq<char>) -> Seq<char> {
    s.map_values(|c: char| ascii_lower_char(c))
}

/// Lower-cases the ASCII letters of `s` and leaves all other characters as
/// they are.
pub fn to_ascii_lowercase(s: &str) -> (res: String)
    ensures
        res@ == ascii_lower(s@),
{
    let n = s.unicode_len();
    let mut res = String::new();
    let mut i: usize = 0;
    while i < n
        invariant
            n == s@.len(),
            i <= n,
            res@ == ascii_lower(s@.take(i as int)),
        decreases n - i,
    {
        let c = s.get_char(i);
        let l = if 'A' <= c && c <= 'Z' {
            let b: u8 = c as u8;
            (b + 32) as char
        } else {
            c
        };
        push_char(&mut res, l);
        assert(s@.take(i + 1) =~= s@.take(i as int).push(c));
        i = i + 1;
    }
    assert(s@.take(n as int) =~= s@);
    res
}

/// The character of a decimal digit `d < 10`.
pub open spec fn digit_char(d: nat) -> char {
    (d + 48) as char
}

/// The decimal rendering of `n`, most significant digit first, without
/// leading zeros (`0` renders as `"0"`).
pub open spec fn decimal(n: nat) -> Seq<char>
    decreases n,
{
    if n < 10 {
        seq![digit_char(n)]
    } else {
        decimal(n / 10).push(digit_char(n % 10))
    }
}

/// Renders `n` in decimal, as `n.to_string()` does.
pub fn u64_to_decimal(n: u64) -> (res: String)
    ensures
        res@ == decimal(n as nat),
    decreases n,
{
    if n < 10 {
        let mut s = String::new();
        let d: u8 = n as u8;
        push_char(&mut s, (d + 48) as char);
        assert(s@ =~= decimal(n as nat));
        s
    } else {
        let mut s = u64_to_decimal(n / 10);
        let d: u8 = (n % 10) as u8;
        push_char(&mut s, (d + 48) as char);
        s
    }
}

/// The decimal rendering of a number has at least one digit, and more than
/// one exactly from ten on.
pub proof fn lemma_decimal_len(n: nat)
    ensures
        decimal(n).len() >= 1,
        n >= 10 ==> decimal(n).len() >= 2,
    decreases n,
{
    if n >= 10 {
        lemma_decimal_len(n / 10);
    }
}

/// Different digits have different characters.
pub proof fn lemma_digit_char_injective(a: nat, b: nat)
    requires
        a < 10,
        b < 10,
        digit_char(a) == digit_char(b),
    ensures
        a == b,
{
    assert((digit_char(a) as int) == a + 48);
    assert((digit_char(b) as int) == b + 48);
}

/// Different numbers have different decimal renderings.
pub proof fn lemma_decimal_injective(a: nat, b: nat)
    requires
        decimal(a) == decimal(b),
    ensures
        a == b,
    decreases a,
{
    lemma_decimal_len(a);
    lemma_decimal_len(b);
    if a < 10 && b < 10 {
        assert(decimal(a) == seq![digit_char(a)]);
        assert(decimal(b) == seq![digit_char(b)]);
        assert(seq![digit_char(a)][0] == digit_char(a));
        assert(seq![digit_char(b)][0] == digit_char(b));
        assert(decimal(a)[0] == decimal(b)[0]);
        lemma_digit_char_injective(a, b);
    } else if a >= 10 && b >= 10 {
        let da = decimal(a / 10);
        let db = decimal(b / 10);
        assert(decimal(a) == da.push(digit_char(a % 10)));
        assert(decimal(b) == db.push(digit_char(b % 10)));
        assert(da =~= decimal(a).drop_last());
        assert(db =~= decimal(b).drop_last());
        assert(digit_char(a % 10) == decimal(a).last());
        lemma_digit_char_injective(a % 10, b % 10);
        lemma_decimal_injective(a / 10, b / 10);
    } else {
        assert(decimal(a).len() == decimal(b).len());
    }
}

/// Two strings that share a prefix and are equal have equal rests.
pub proof fn lemma_prefix_cancel(p: Seq<char>, x: Seq<char>, y: Seq<char>)
    requires
        p + x == p + y,
    ensures
        x == y,
{
    assert(x =~= (p + x).skip(p.len() as int));
    assert(y =~= (p + y).skip(p.len() as int));
}

/// `s` with every occurrence of `c` removed.
pub open spec fn without_char(s: Seq<char>, c: char) -> Seq<char> {
    s.filter(other_than(c))
}

/// The test "is not `c`".
pub open spec fn other_than(c: char) -> spec_fn(char) -> bool {
    |x: char| x != c
}

/// Removes every occurrence of `c` from `s`, as `s.replace(c, "")` does.
pub fn remove_char(s: &str, c: char) -> (res: String)
    ensures
        res@ == without_char(s@, c),
{
    let n = s.unicode_len();
    let mut res = String::new();
    let mut i: usize = 0;
    while i < n
        invariant
            n == s@.len(),
            i <= n,
            res@ == without_char(s@.take(i as int), c),
        decreases n - i,
    {
        let x = s.get_char(i);
        proof {
            assert(s@.take(i + 1).drop_last() =~= s@.take(i as int));
            reveal_with_fuel(Seq::filter, 1);
        }
        if x != c {
            push_char(&mut res, x);
        }
        i = i + 1;
    }
    assert(s@.take(n as int) =~= s@);
    res
}


/// Concatenation of all parts, with `sep` between consecutive parts.
pub open spec fn join_seq(parts: Seq<Seq<char>>, sep: Seq<char>) -> Seq<char>
    decreases parts.len(),
{
    if parts.len() == 0 {
        Seq::empty()
    } else if parts.len() == 1 {
        parts[0]
    } else {
        join_seq(parts.drop_last(), sep) + sep + parts.last()
    }
}

/// The views of a vector of strings.
pub open spec fn views(v: Seq<String>) -> Seq<Seq<char>> {
    v.map_values(|s: String| s@)
}

/// Joins the parts with `sep` between consecutive parts, as
/// `parts.join(sep)` does.
pub fn join(parts: &Vec<String>, sep: &str) -> (res: String)
    ensures
        res@ == join_seq(views(parts@), sep@),
{
    let n = parts.len();
    let mut res = String::new();
    let mut i: usize = 0;
    while i < n
        invariant
            n == parts@.len(),
            i <= n,
            res@ == join_seq(views(parts@).take(i as int), sep@),
        decreases n - i,
    {
        assert(views(parts@).take(i + 1).drop_last() =~= views(parts@).take(i as int));
        if i > 0 {
            res.append(sep);
        } else {
            assert(views(parts@).take(0) =~= Seq::<Seq<char>>::empty());
        }
        res.append(parts[i].as_str());
        i = i + 1;
    }
    assert(views(parts@).take(n as int) =~= views(parts@));
    res
}

/// `pat` occurs in `s` at position `i`.
pub open spec fn occurs_at(s: Seq<char>, pat: Seq<char>, i: int) -> bool {
    0 <= i && i + pat.len() <= s.len() && s.subrange(i, i + pat.len()) == pat
}

/// `pat` occurs somewhere in `s`.
pub open spec fn contains_seq(s: Seq<char>, pat: Seq<char>) -> bool {
    exists|i: int| occurs_at(s, pat, i)
}

/// Compares the characters of `s` from position `i` with `pat`.
fn matches_at(s: &Vec<char>, pat: &Vec<char>, i: usize) -> (res: bool)
    ensures
        res == occurs_at(s@, pat@, i as int),
{
    if i > s.len() || pat.len() > s.len() - i {
        return false;
    }
    let mut k: usize = 0;
    while k < pat.len()
        invariant
            i + pat@.len() <= s@.len(),
            s@.len() <= usize::MAX,
            k <= pat@.len(),
            forall|j: int| 0 <= j < k ==> s@[i + j] == pat@[j],
        decreases pat@.len() - k,
    {
        if s[i + k] != pat[k] {
            assert(s@.subrange(i as int, i + pat@.len())[k as int] != pat@[k as int]);
            return false;
        }
        k = k + 1;
    }
    assert(s@.subrange(i as int, i + pat@.len()) =~= pat@);
    true
}

/// The characters of a string, in order.
pub fn chars_of(s: &str) -> (res: Vec<char>)
    ensures
        res@ == s@,
{
    let n = s.unicode_len();
    let mut res: Vec<char> = Vec::new();
    let mut i: usize = 0;
    while i < n
        invariant
            n == s@.len(),
            i <= n,
            res@ == s@.take(i as int),
        decreases n - i,
    {
        res.push(s.get_char(i));
        assert(res@ =~= s@.take(i + 1));
        i = i + 1;
    }
    assert(s@.take(n as int) =~= s@);
    res
}

/// Whether `pat` occurs in `s`, as `s.contains(pat)` does.
pub fn contains(s: &str, pat: &str) -> (res: bool)
    ensures
        res == contains_seq(s@, pat@),
{
    let sv = chars_of(s);
    let pv = chars_of(pat);
    if pv.len() > sv.len() {
        assert forall|i: int| !occurs_at(s@, pat@, i) by {}
        return false;
    }
    let last = sv.len() - pv.len();
    let mut i: usize = 0;
    loop
        invariant
            sv@ == s@,
            pv@ == pat@,
            last == s@.len() - pat@.len(),
            i <= last,
            forall|j: int| 0 <= j < i ==> !occurs_at(s@, pat@, j),
        ensures
            forall|j: int| 0 <= j <= last ==> !occurs_at(s@, pat@, j),
        decreases last - i,
    {
        if matches_at(&sv, &pv, i) {
            return true;
        }
        if i == last {
            break;
        }
        i = i + 1;
    }
    assert forall|j: int| !occurs_at(s@, pat@, j) by {
        if 0 <= j && j <= last {
        }
    }
    false
}

/// `s` with `with` after each of its characters.
pub open spec fn interleave(s: Seq<char>, with: Seq<char>) -> Seq<char>
    decreases s.len(),
{
    if s.len() == 0 {
        Seq::empty()
    } else {
        seq![s[0]] + with + interleave(s.skip(1), with)
    }
}

/// `s` with each non-overlapping occurrence of `pat`, scanning from the left,
/// replaced by `with`; an empty `pat` occurs before each character and at the
/// end.
pub open spec fn replace_seq(s: Seq<char>, pat: Seq<char>, with: Seq<char>) -> Seq<char>
    decreases s.len(),
{
    if pat.len() == 0 {
        with + interleave(s, with)
    } else if s.len() < pat.len() {
        s
    } else if s.take(pat.len() as int) == pat {
        with + replace_seq(s.skip(pat.len() as int), pat, with)
    } else {
        seq![s[0]] + replace_seq(s.skip(1), pat, with)
    }
}

/// Replaces each non-overlapping occurrence of `pat`, scanning from the left,
/// by `with`, as `s.replace(pat, with)` does.
pub fn replace_all(s: &str, pat: &str, with: &str) -> (res: String)
    ensures
        res@ == replace_seq(s@, pat@, with@),
{
    let sv = chars_of(s);
    let pv = chars_of(pat);
    let n = sv.len();
    let m = pv.len();
    if m == 0 {
        let mut res = String::from_str(with);
        let mut i: usize = 0;
        assert(s@.skip(0) =~= s@);
        while i < n
            invariant
                sv@ == s@,
                n == s@.len(),
                i <= n,
                res@ + interleave(s@.skip(i as int), with@) == with@ + interleave(s@, with@),
            decreases n - i,
        {
            let c = sv[i];
            let ghost before = res@;
            proof {
                let rest = s@.skip(i as int);
                assert(rest[0] == c);
                assert(rest.skip(1) =~= s@.skip(i + 1));
            }
            push_char(&mut res, c);
            res.append(with);
            proof {
                let tail = interleave(s@.skip(i + 1), with@);
                assert(before + (seq![c] + with@ + tail) =~= res@ + tail);
            }
            i = i + 1;
        }
        assert(s@.skip(n as int) =~= Seq::<char>::empty());
        assert(res@ =~= res@ + interleave(Seq::<char>::empty(), with@));
        return res;
    }
    let mut res = String::new();
    let mut i: usize = 0;
    assert(s@.skip(0) =~= s@);
    while i < n
        invariant
            sv@ == s@,
            pv@ == pat@,
            n == s@.len(),
            m == pat@.len(),
            m > 0,
            i <= n,
            res@ + replace_seq(s@.skip(i as int), pat@, with@) == replace_seq(s@, pat@, with@),
        decreases n - i,
    {
        let rest = Ghost(s@.skip(i as int));
        if m <= n - i && matches_at(&sv, &pv, i) {
            proof {
                assert(rest@.take(m as int) =~= pat@);
                assert(rest@.skip(m as int) =~= s@.skip(i + m));
            }
            let ghost before = res@;
            res.append(with);
            proof {
                let tail = replace_seq(s@.skip(i + m), pat@, with@);
                assert(before + (with@ + tail) =~= res@ + tail);
            }
            i = i + m;
        } else {
            let c = sv[i];
            proof {
                if m <= n - i {
                    assert(rest@.take(m as int) != pat@) by {
                        if rest@.take(m as int) == pat@ {
                            assert(s@.subrange(i as int, i + m) =~= rest@.take(m as int));
                        }
                    }
                }
                assert(rest@.skip(1) =~= s@.skip(i + 1));
                assert(rest@[0] == c);
            }
            let ghost before = res@;
            push_char(&mut res, c);
            proof {
                let tail = replace_seq(s@.skip(i + 1), pat@, with@);
                assert(before + (seq![c] + tail) =~= res@ + tail);
            }
            i = i + 1;
        }
    }
    assert(s@.skip(n as int) =~= Seq::<char>::empty());
    res
}

/// `c` has the Unicode `White_Space` property, as `char::is_whitespace`
/// decides.
pub open spec fn is_whitespace(c: char) -> bool {
    ||| ('\u{9}' <= c && c <= '\u{d}')
    ||| c == ' '
    ||| c == '\u{85}'
    ||| c == '\u{a0}'
    ||| c == '\u{1680}'
    ||| ('\u{2000}' <= c && c <= '\u{200a}')
    ||| c == '\u{2028}'
    ||| c == '\u{2029}'
    ||| c == '\u{202f}'
    ||| c == '\u{205f}'
    ||| c == '\u{3000}'
}

/// Every character of `s` is white space, so that `s.trim_end()` is empty.
pub open spec fn all_whitespace(s: Seq<char>) -> bool {
    forall|i: int| 0 <= i < s.len() ==> is_whitespace(#[trigger] s[i])
}

fn whitespace_char(c: char) -> (res: bool)
    ensures
        res == is_whitespace(c),
{
    ('\u{9}' <= c && c <= '\u{d}') || c == ' ' || c == '\u{85}' || c == '\u{a0}' || c
        == '\u{1680}' || ('\u{2000}' <= c && c <= '\u{200a}') || c == '\u{2028}' || c
        == '\u{2029}' || c == '\u{202f}' || c == '\u{205f}' || c == '\u{3000}'
}

/// Whether `s.trim_end()` is empty, that is whether `s` holds only white
/// space.
pub fn trimmed_is_empty(s: &str) -> (res: bool)
    ensures
        res == all_whitespace(s@),
{
    let n = s.unicode_len();
    let mut i: usize = 0;
    while i < n
        invariant
            n == s@.len(),
            i <= n,
            forall|j: int| 0 <= j < i ==> is_whitespace(#[trigger] s@[j]),
        decreases n - i,
    {
        if !whitespace_char(s.get_char(i)) {
            return false;
        }
        i = i + 1;
    }
    true
}

} // verus!
