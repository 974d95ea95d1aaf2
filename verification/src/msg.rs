//! The message macros of `comet_macros`: a handler expression is named by a
//! hash of its text, so that the message enum (`generate_msg!`) and the arms
//! of the update match (`generate_update!`, `generate_hash!`) name the same
//! handler with the same variant `Event<hash>`; `gensym!` adds the number of
//! its expansion, so that each of its expansions gets an identifier of its
//! own.
use vstd::prelude::*;

use crate::text::{decimal, digit_char, eq_str, lemma_decimal_injective, u64_to_decimal, views};

verus! {

/// The hash of an expression's token text.
pub uninterp spec fn text_hash(text: Seq<char>) -> u64;

/// Hashes an expression's token text.
///
/// Trusted: `std::hash::BuildHasher::hash_one` with the default builder of
/// `DefaultHasher`, which hashes the text with a fresh `DefaultHasher::new()`
/// and returns `finish()`. The standard library documents that every
/// `DefaultHasher` made by `new` produces the same result for the same input,
/// so the result is taken to depend on the text alone, under the name
/// `text_hash`; which number it is is not stated.
#[verifier::external_body]
fn hash_text(text: &str) -> (res: u64)
    ensures
        res == text_hash(text@),
{
    std::hash::BuildHasher::hash_one(
        &std::hash::BuildHasherDefault::<std::collections::hash_map::DefaultHasher>::default(),
        text,
    )
}

/// The hash of an expression's text, in decimal.
pub fn hash(text: &str) -> (res: String)
    ensures
        res@ == decimal(text_hash(text@) as nat),
{
    u64_to_decimal(hash_text(text))
}

/// `Event<hash>`: the variant that names the handler with this text.
pub open spec fn event_ident(text: Seq<char>) -> Seq<char> {
    "Event"@ + decimal(text_hash(text) as nat)
}

/// The variants of a list of handlers, in order.
pub open spec fn event_idents(texts: Seq<Seq<char>>) -> Seq<Seq<char>> {
    texts.map_values(|t: Seq<char>| event_ident(t))
}

fn event_ident_of(text: &str) -> (res: String)
    ensures
        res@ == event_ident(text@),
{
    let mut s = String::from_str("Event");
    let h = hash(text);
    s.append(h.as_str());
    s
}

/// The names of a list, each kept at its first occurrence.
pub open spec fn first_occurrences(s: Seq<Seq<char>>) -> Seq<Seq<char>>
    decreases s.len(),
{
    if s.len() == 0 {
        Seq::empty()
    } else {
        let d = first_occurrences(s.drop_last());
        if d.contains(s.last()) {
            d
        } else {
            d.push(s.last())
        }
    }
}

/// Keeping first occurrences leaves no name twice and loses none.
pub proof fn lemma_first_occurrences(s: Seq<Seq<char>>)
    ensures
        first_occurrences(s).no_duplicates(),
        forall|x: Seq<char>| #[trigger] first_occurrences(s).contains(x) <==> s.contains(x),
    decreases s.len(),
{
    if s.len() > 0 {
        let d = first_occurrences(s.drop_last());
        lemma_first_occurrences(s.drop_last());
        assert forall|x: Seq<char>| s.contains(x) <==> s.drop_last().contains(x) || x == s.last() by {
            if s.contains(x) {
                let i = choose|i: int| 0 <= i < s.len() && s[i] == x;
                if i < s.len() - 1 {
                    assert(s.drop_last()[i] == x);
                }
            }
            if s.drop_last().contains(x) {
                let i = choose|i: int| 0 <= i < s.drop_last().len() && s.drop_last()[i] == x;
                assert(s[i] == x);
            }
            if x == s.last() {
                assert(s[s.len() - 1] == x);
            }
        }
        if !d.contains(s.last()) {
            let e = d.push(s.last());
            assert forall|x: Seq<char>| e.contains(x) <==> d.contains(x) || x == s.last() by {
                if e.contains(x) {
                    let i = choose|i: int| 0 <= i < e.len() && e[i] == x;
                    if i < d.len() {
                        assert(d[i] == x);
                    }
                }
                if d.contains(x) {
                    let i = choose|i: int| 0 <= i < d.len() && d[i] == x;
                    assert(e[i] == x);
                }
                if x == s.last() {
                    assert(e[d.len() as int] == x);
                }
            }
            assert forall|i: int, j: int| 0 <= i < e.len() && 0 <= j < e.len() && i != j implies e[i]
                != e[j] by {
                if i < d.len() && j < d.len() {
                } else if i < d.len() {
                    assert(d.contains(e[i]));
                } else {
                    assert(d.contains(e[j]));
                }
            }
        }
    }
}

fn contains_string(v: &Vec<String>, s: &String) -> (res: bool)
    ensures
        res == views(v@).contains(s@),
{
    let mut i: usize = 0;
    while i < v.len()
        invariant
            i <= v@.len(),
            forall|j: int| 0 <= j < i ==> v@[j]@ != s@,
        decreases v@.len() - i,
    {
        if eq_str(&v[i], s.as_str()) {
            assert(views(v@)[i as int] == s@);
            return true;
        }
        i = i + 1;
    }
    proof {
        if views(v@).contains(s@) {
            let j = choose|j: int| 0 <= j < views(v@).len() && views(v@)[j] == s@;
            assert(v@[j]@ == s@);
        }
    }
    false
}

/// The variants of the message enum that `generate_msg!` declares for a
/// list of handler expressions: the variant of each handler, in order, with
/// a variant that several handlers share declared once.
pub fn generate_msg_call(exprs: &Vec<String>) -> (res: Vec<String>)
    ensures
        views(res@) == first_occurrences(event_idents(views(exprs@))),
{
    let mut res: Vec<String> = Vec::new();
    let mut i: usize = 0;
    while i < exprs.len()
        invariant
            i <= exprs@.len(),
            views(res@) == first_occurrences(event_idents(views(exprs@.take(i as int)))),
        decreases exprs@.len() - i,
    {
        let v = event_ident_of(exprs[i].as_str());
        let ghost prev = res@;
        let ghost idents = event_idents(views(exprs@.take(i + 1)));
        proof {
            assert(exprs@.take(i + 1) =~= exprs@.take(i as int).push(exprs@[i as int]));
            assert(idents =~= event_idents(views(exprs@.take(i as int))).push(
                event_ident(exprs@[i as int]@),
            ));
            assert(idents.drop_last() =~= event_idents(views(exprs@.take(i as int))));
        }
        if !contains_string(&res, &v) {
            res.push(v);
            proof {
                assert(views(res@) =~= views(prev).push(event_ident(exprs@[i as int]@)));
            }
        }
        i = i + 1;
    }
    assert(exprs@.take(exprs@.len() as int) =~= exprs@);
    res
}

/// The variant that `generate_update!` matches for one handler expression
/// (the macro writes it as `Msg::<variant>`).
pub fn generate_update_call(expr: &str) -> (res: String)
    ensures
        res@ == event_ident(expr@),
{
    event_ident_of(expr)
}

/// The identifier that `generate_hash!` inserts as the first argument of a
/// macro call, made from the call's first argument: the variant that
/// `generate_update!` gives the same handler, so that a macro that names a
/// message variant (`Msg::<identifier>`) names the one the enum declares.
pub fn insert_macro_arg(first_arg: &str) -> (res: String)
    ensures
        res@ == event_ident(first_arg@),
{
    event_ident_of(first_arg)
}

/// `Event<hash>_<n>`: the identifier of expansion number `n` of `gensym!`
/// for a first argument with this text.
pub open spec fn gensym_ident(text: Seq<char>, n: nat) -> Seq<char> {
    event_ident(text) + "_"@ + decimal(n)
}

/// The identifier that `gensym!` inserts as the first argument of a macro
/// call: the hash of the call's first argument, then the number of the
/// expansion, which `expansions` counts. Every expansion gets an identifier
/// of its own, also when two expansions have the same first argument.
pub fn alter_macro(expansions: &mut u64, first_arg: &str) -> (res: String)
    requires
        *old(expansions) < u64::MAX,
    ensures
        res@ == gensym_ident(first_arg@, *old(expansions) as nat),
        *final(expansions) == *old(expansions) + 1,
{
    let n = *expansions;
    *expansions = n + 1;
    let mut res = event_ident_of(first_arg);
    res.append("_");
    let d = u64_to_decimal(n);
    res.append(d.as_str());
    res
}

/// The digits of a decimal rendering.
pub proof fn lemma_decimal_digits(n: nat)
    ensures
        forall|i: int| 0 <= i < decimal(n).len() ==> 48 <= (#[trigger] decimal(n)[i]) as int <= 57,
    decreases n,
{
    if n >= 10 {
        lemma_decimal_digits(n / 10);
        let d = decimal(n / 10);
        assert forall|i: int| 0 <= i < decimal(n).len() implies 48 <= (#[trigger] decimal(n)[i]) as int
            <= 57 by {
            if i < d.len() {
                assert(decimal(n)[i] == d[i]);
            } else {
                assert(decimal(n)[i] == digit_char(n % 10));
                assert((digit_char(n % 10) as int) == n % 10 + 48);
            }
        }
    } else {
        assert(decimal(n)[0] == digit_char(n));
        assert((digit_char(n) as int) == n + 48);
    }
}

/// No handler variant holds an underscore.
proof fn lemma_event_ident_no_underscore(text: Seq<char>)
    ensures
        forall|i: int| 0 <= i < event_ident(text).len() ==> (#[trigger] event_ident(text)[i]) != '_',
{
    reveal_strlit("Event");
    let h = decimal(text_hash(text) as nat);
    lemma_decimal_digits(text_hash(text) as nat);
    let e = event_ident(text);
    assert forall|i: int| 0 <= i < e.len() implies (#[trigger] e[i]) != '_' by {
        if i < 5 {
            assert(e[i] == "Event"@[i]);
        } else {
            assert(e[i] == h[i - 5]);
            assert(48 <= h[i - 5] as int <= 57);
        }
    }
}

/// Two expansions of `gensym!` never insert the same identifier, whatever
/// their first arguments.
pub proof fn lemma_gensym_distinct(t1: Seq<char>, n1: nat, t2: Seq<char>, n2: nat)
    requires
        n1 != n2,
    ensures
        gensym_ident(t1, n1) != gensym_ident(t2, n2),
{
    reveal_strlit("_");
    let a1 = event_ident(t1);
    let a2 = event_ident(t2);
    let s1 = gensym_ident(t1, n1);
    let s2 = gensym_ident(t2, n2);
    lemma_event_ident_no_underscore(t1);
    lemma_event_ident_no_underscore(t2);
    if s1 == s2 {
        assert(s1[a1.len() as int] == '_');
        assert(s2[a2.len() as int] == '_');
        if a1.len() < a2.len() {
            assert(s2[a1.len() as int] == a2[a1.len() as int]);
        } else if a2.len() < a1.len() {
            assert(s1[a2.len() as int] == a1[a2.len() as int]);
        } else {
            assert(decimal(n1) =~= s1.skip(a1.len() as int + 1));
            assert(decimal(n2) =~= s2.skip(a2.len() as int + 1));
            lemma_decimal_injective(n1, n2);
        }
    }
}

/// The update arm of a handler matches one of the variants that the message
/// enum declares for a list of handlers holding it, and the enum declares no
/// variant twice, also when handlers repeat.
pub proof fn lemma_update_arm_is_declared(exprs: Seq<Seq<char>>, i: int)
    requires
        0 <= i < exprs.len(),
    ensures
        first_occurrences(event_idents(exprs)).contains(event_ident(exprs[i])),
        first_occurrences(event_idents(exprs)).no_duplicates(),
{
    lemma_first_occurrences(event_idents(exprs));
    assert(event_idents(exprs)[i] == event_ident(exprs[i]));
}

} // verus!
