//! Deterministic addressing of shares in the key/value substrate.
//!
//! The dealer and the collector never coordinate: both derive the storage
//! key of candidate `i` for secret `name` as `"share/" + i + name`, with
//! `name` first normalized to a canonical absolute form — exactly one
//! leading separator and no trailing one — so that the two sides agree
//! whatever raw spelling the caller used.

use vstd::prelude::*;

verus! {

/// How many leading separators a name carries.
pub open spec fn lead_seps(s: Seq<char>) -> nat
    decreases s.len(),
{
    if s.len() == 0 || s[0] != '/' {
        0
    } else {
        1 + lead_seps(s.drop_first())
    }
}

/// How many trailing separators a name carries.
pub open spec fn trail_seps(s: Seq<char>) -> nat
    decreases s.len(),
{
    if s.len() == 0 || s.last() != '/' {
        0
    } else {
        1 + trail_seps(s.drop_last())
    }
}

/// The canonical absolute form of a secret name: the name with every
/// leading and trailing separator removed, behind exactly one leading
/// separator.  A name of nothing but separators canonicalizes to the bare
/// separator.
pub open spec fn normalize_spec(s: Seq<char>) -> Seq<char> {
    let tail = s.skip(lead_seps(s) as int);
    seq!['/'] + tail.take(tail.len() - trail_seps(tail))
}

/// The decimal digits of `n`, most significant first.
pub open spec fn dec_digits(n: nat) -> Seq<char>
    decreases n,
{
    if n < 10 {
        seq![digit_char(n)]
    } else {
        dec_digits(n / 10).push(digit_char(n % 10))
    }
}

/// The character for one decimal digit.
pub open spec fn digit_char(d: nat) -> char {
    if d == 0 {
        '0'
    } else if d == 1 {
        '1'
    } else if d == 2 {
        '2'
    } else if d == 3 {
        '3'
    } else if d == 4 {
        '4'
    } else if d == 5 {
        '5'
    } else if d == 6 {
        '6'
    } else if d == 7 {
        '7'
    } else if d == 8 {
        '8'
    } else {
        '9'
    }
}

/// The storage key under which candidate `index` of secret `name` lives.
pub open spec fn key_for_spec(index: u8, name: Seq<char>) -> Seq<char> {
    seq!['s', 'h', 'a', 'r', 'e', '/'] + dec_digits(index as nat) + normalize_spec(name)
}

proof fn lemma_lead_seps_le(s: Seq<char>)
    ensures
        lead_seps(s) <= s.len(),
    decreases s.len(),
{
    if s.len() != 0 && s[0] == '/' {
        lemma_lead_seps_le(s.drop_first());
    }
}

proof fn lemma_lead_seps_at(s: Seq<char>, i: nat)
    requires
        i <= s.len(),
        forall|j: int| 0 <= j < i ==> s[j] == '/',
        i == s.len() || s[i as int] != '/',
    ensures
        lead_seps(s) == i,
    decreases s.len(),
{
    if s.len() == 0 || s[0] != '/' {
    } else {
        let t = s.drop_first();
        assert(forall|j: int| 0 <= j < i - 1 ==> t[j] == '/');
        lemma_lead_seps_at(t, (i - 1) as nat);
    }
}

proof fn lemma_trail_seps_at(s: Seq<char>, i: nat)
    requires
        i <= s.len(),
        forall|j: int| s.len() - i <= j < s.len() ==> s[j] == '/',
        i == s.len() || s[s.len() - i - 1] != '/',
    ensures
        trail_seps(s) == i,
    decreases s.len(),
{
    if s.len() == 0 || s.last() != '/' {
        assert(i == 0);
    } else {
        let t = s.drop_last();
        assert(forall|j: int| t.len() - (i - 1) <= j < t.len() ==> t[j] == '/');
        lemma_trail_seps_at(t, (i - 1) as nat);
    }
}

/// Normalizes a secret name to its canonical absolute form.
pub fn normalize(name: &str) -> (r: String)
    ensures
        r@ == normalize_spec(name@),
{
    let n = name.unicode_len();
    let mut a: usize = 0;
    loop
        invariant
            a <= n,
            n == name@.len(),
            forall|j: int| 0 <= j < a ==> name@[j] == '/',
        ensures
            a <= n,
            forall|j: int| 0 <= j < a ==> name@[j] == '/',
            a == n || name@[a as int] != '/',
        decreases n - a,
    {
        if a == n {
            break ;
        }
        if name.get_char(a) != '/' {
            break ;
        }
        a = a + 1;
    }
    let mut b: usize = n;
    loop
        invariant
            a <= b <= n,
            n == name@.len(),
            forall|j: int| b <= j < n ==> name@[j] == '/',
        ensures
            a <= b <= n,
            forall|j: int| b <= j < n ==> name@[j] == '/',
            b == a || name@[b - 1] != '/',
        decreases b,
    {
        if b == a {
            break ;
        }
        if name.get_char(b - 1) != '/' {
            break ;
        }
        b = b - 1;
    }
    let core = name.substring_char(a, b);
    let mut out = String::from_str("/");
    out.append(core);
    proof {
        reveal_strlit("/");
        assert("/"@ =~= seq!['/']);
        lemma_lead_seps_at(name@, a as nat);
        let tail = name@.skip(a as int);
        assert(forall|j: int| (b - a) <= j < tail.len() ==> tail[j] == '/');
        lemma_trail_seps_at(tail, (n - b) as nat);
        assert(tail.take(b - a) =~= name@.subrange(a as int, b as int));
        assert(out@ =~= normalize_spec(name@));
    }
    out
}

/// The text of one decimal digit.
fn digit_str(d: u8) -> (r: &'static str)
    requires
        d < 10,
    ensures
        r@ =~= seq![digit_char(d as nat)],
{
    proof {
        reveal_strlit("0");
        reveal_strlit("1");
        reveal_strlit("2");
        reveal_strlit("3");
        reveal_strlit("4");
        reveal_strlit("5");
        reveal_strlit("6");
        reveal_strlit("7");
        reveal_strlit("8");
        reveal_strlit("9");
    }
    match d {
        0 => "0",
        1 => "1",
        2 => "2",
        3 => "3",
        4 => "4",
        5 => "5",
        6 => "6",
        7 => "7",
        8 => "8",
        _ => "9",
    }
}

/// Derives the storage key for candidate `index` of the secret called
/// `name`: the fixed prefix, the decimal index, then the normalized name.
/// The derivation is deterministic — it is a function of its arguments
/// alone, pinned by the postcondition — which is what lets the dealer and
/// the collector agree on addresses without coordination.
pub fn key_for(index: u8, name: &str) -> (r: String)
    ensures
        r@ == key_for_spec(index, name@),
{
    let mut out = String::from_str("share/");
    proof {
        reveal_strlit("share/");
        assert("share/"@ =~= seq!['s', 'h', 'a', 'r', 'e', '/']);
    }
    let t = index / 10;
    let h = t / 10;
    if h > 0 {
        out.append(digit_str(h));
    }
    if t > 0 {
        out.append(digit_str(t % 10));
    }
    out.append(digit_str(index % 10));
    proof {
        if index >= 10 {
            assert(dec_digits(index as nat) == dec_digits((index as nat) / 10).push(
                digit_char((index as nat) % 10),
            ));
            assert((index as nat) / 10 == t as nat);
            if index >= 100 {
                assert(dec_digits(t as nat) == dec_digits((t as nat) / 10).push(
                    digit_char((t as nat) % 10),
                ));
                assert((t as nat) / 10 == h as nat);
                assert(h < 10 && h > 0);
                assert(dec_digits(h as nat) == seq![digit_char(h as nat)]);
                assert(dec_digits(index as nat) =~= seq![
                    digit_char(h as nat),
                    digit_char((t % 10) as nat),
                    digit_char((index % 10) as nat),
                ]);
            } else {
                assert(t < 10 && t > 0 && h == 0);
                assert(dec_digits(t as nat) == seq![digit_char(t as nat)]);
                assert((t % 10) as nat == t as nat);
                assert(dec_digits(index as nat) =~= seq![
                    digit_char((t % 10) as nat),
                    digit_char((index % 10) as nat),
                ]);
            }
        } else {
            assert(t == 0 && h == 0);
            assert(dec_digits(index as nat) == seq![digit_char(index as nat)]);
            assert((index % 10) as nat == index as nat);
        }
    }
    let tail = normalize(name);
    let out = out.concat(tail.as_str());
    proof {
        assert(out@ =~= key_for_spec(index, name@));
    }
    out
}

/// Law: addressing does not depend on whether the caller spelled the name
/// with a leading separator.  Prepending one to any name leaves every
/// derived key unchanged.
pub proof fn lemma_key_for_slash(index: u8, name: Seq<char>)
    ensures
        key_for_spec(index, seq!['/'] + name) == key_for_spec(index, name),
{
    let s = seq!['/'] + name;
    assert(s.drop_first() =~= name);
    lemma_lead_seps_le(name);
    assert(s.skip(lead_seps(s) as int) =~= name.skip(lead_seps(name) as int));
}

} // verus!
