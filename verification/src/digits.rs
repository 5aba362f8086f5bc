//! Decimal rendering of numeric identifiers, and the platform mention-token
//! shapes built from them.

use vstd::prelude::*;

verus! {

pub open spec fn digit_char(d: int) -> char {
    if d == 0 {
        '0'
    } else if d == 1 {
        '1'
    } else if d == 2 {
        '2'
    } else if d == 3 {
        '3'
    } else if d == 4 {
        '4'
    } else if d == 5 {
        '5'
    } else if d == 6 {
        '6'
    } else if d == 7 {
        '7'
    } else if d == 8 {
        '8'
    } else {
        '9'
    }
}

pub open spec fn is_digit(c: char) -> bool {
    c == '0' || c == '1' || c == '2' || c == '3' || c == '4' || c == '5' || c == '6' || c == '7'
        || c == '8' || c == '9'
}

/// The decimal digits of `n`, most significant first.
pub open spec fn dec_digits(n: nat) -> Seq<char>
    decreases n,
{
    if n < 10 {
        seq![digit_char(n as int)]
    } else {
        dec_digits(n / 10) + seq![digit_char((n % 10) as int)]
    }
}

pub proof fn lemma_dec_digits_are_digits(n: nat)
    ensures
        dec_digits(n).len() >= 1,
        forall|i: int| 0 <= i < dec_digits(n).len() ==> is_digit(#[trigger] dec_digits(n)[i]),
    decreases n,
{
    if n < 10 {
    } else {
        lemma_dec_digits_are_digits(n / 10);
        let pre = dec_digits(n / 10);
        assert(forall|i: int|
            0 <= i < pre.len() ==> #[trigger] dec_digits(n)[i] == pre[i]);
        assert(dec_digits(n)[pre.len() as int] == digit_char((n % 10) as int));
    }
}

fn digit_to_char(d: u64) -> (c: char)
    requires
        d < 10,
    ensures
        c == digit_char(d as int),
{
    if d == 0 {
        '0'
    } else if d == 1 {
        '1'
    } else if d == 2 {
        '2'
    } else if d == 3 {
        '3'
    } else if d == 4 {
        '4'
    } else if d == 5 {
        '5'
    } else if d == 6 {
        '6'
    } else if d == 7 {
        '7'
    } else if d == 8 {
        '8'
    } else {
        '9'
    }
}

/// Render an identifier in decimal.
pub fn u64_to_chars(v: u64) -> (r: Vec<char>)
    ensures
        r@ == dec_digits(v as nat),
{
    let mut rev: Vec<char> = Vec::new();
    let mut n: u64 = v;
    let ghost mut acc: Seq<char> = Seq::empty();
    proof {
        assert(dec_digits(v as nat) =~= dec_digits(v as nat) + acc);
    }
    loop
        invariant_except_break
            rev@.len() == acc.len(),
            forall|q: int| 0 <= q < acc.len() ==> rev@[q] == acc[acc.len() - 1 - q],
            dec_digits(v as nat) == dec_digits(n as nat) + acc,
        ensures
            rev@.len() == acc.len(),
            forall|q: int| 0 <= q < acc.len() ==> rev@[q] == acc[acc.len() - 1 - q],
            dec_digits(v as nat) == acc,
        decreases n,
    {
        let d: u64 = n % 10;
        rev.push(digit_to_char(d));
        proof {
            let prev = acc;
            acc = seq![digit_char(d as int)] + acc;
            assert(forall|q: int|
                0 <= q < prev.len() ==> #[trigger] acc[acc.len() - 1 - q] == prev[prev.len() - 1
                    - q]);
            if n >= 10 {
                assert(dec_digits(n as nat) == dec_digits((n / 10) as nat) + seq![
                    digit_char((n % 10) as int),
                ]);
                assert(dec_digits((n / 10) as nat) + seq![digit_char(d as int)] + prev
                    =~= dec_digits((n / 10) as nat) + acc);
            } else {
                assert(dec_digits(n as nat) =~= seq![digit_char(d as int)]);
                assert(dec_digits(n as nat) + prev =~= acc);
            }
        }
        n = n / 10;
        if n == 0 {
            proof {
                assert(dec_digits(v as nat) =~= acc);
            }
            break;
        }
    }
    let m = rev.len();
    let mut r: Vec<char> = Vec::new();
    let mut k: usize = 0;
    while k < m
        invariant
            m == rev@.len(),
            m == acc.len(),
            forall|q: int| 0 <= q < acc.len() ==> rev@[q] == acc[acc.len() - 1 - q],
            k <= m,
            r@.len() == k,
            forall|q: int| 0 <= q < k ==> r@[q] == acc[q],
        decreases m - k,
    {
        r.push(rev[m - 1 - k]);
        k = k + 1;
    }
    proof {
        assert(r@ =~= acc);
    }
    r
}

/// A platform mention token: `<`, a sigil, the decimal id, `>`.
pub open spec fn sig_token(sig: char, id: u64) -> Seq<char> {
    seq!['<', sig] + dec_digits(id as nat) + seq!['>']
}

/// The inline token a message uses to mention a user.
pub open spec fn user_token(id: u64) -> Seq<char> {
    sig_token('@', id)
}

/// The inline token a message uses to mention a channel.
pub open spec fn channel_token(id: u64) -> Seq<char> {
    sig_token('#', id)
}

/// The inline token a message uses to mention a role.
pub open spec fn role_token(id: u64) -> Seq<char> {
    seq!['<', '@', '&'] + dec_digits(id as nat) + seq!['>']
}

/// The readable replacement for a mention: a mark (`@` or `#`) followed by
/// the display name.
pub open spec fn mention_rep(mark: char, name: Seq<char>) -> Seq<char> {
    seq![mark] + name
}

fn build_token(lead: &Vec<char>, id: u64) -> (r: Vec<char>)
    ensures
        r@ == lead@ + dec_digits(id as nat) + seq!['>'],
{
    let mut r: Vec<char> = Vec::new();
    let mut k: usize = 0;
    while k < lead.len()
        invariant
            k <= lead@.len(),
            r@ == lead@.subrange(0, k as int),
        decreases lead@.len() - k,
    {
        r.push(lead[k]);
        proof {
            assert(r@ =~= lead@.subrange(0, k + 1));
        }
        k = k + 1;
    }
    proof {
        assert(lead@.subrange(0, lead@.len() as int) =~= lead@);
    }
    let digits = u64_to_chars(id);
    let mut j: usize = 0;
    while j < digits.len()
        invariant
            j <= digits@.len(),
            digits@ == dec_digits(id as nat),
            r@ == lead@ + digits@.subrange(0, j as int),
        decreases digits@.len() - j,
    {
        r.push(digits[j]);
        proof {
            assert(r@ =~= lead@ + digits@.subrange(0, j + 1));
        }
        j = j + 1;
    }
    proof {
        assert(digits@.subrange(0, digits@.len() as int) =~= digits@);
    }
    r.push('>');
    proof {
        assert(r@ =~= lead@ + dec_digits(id as nat) + seq!['>']);
    }
    r
}

/// Build the user mention token `<@id>`.
pub fn build_user_token(id: u64) -> (r: Vec<char>)
    ensures
        r@ == user_token(id),
{
    let mut lead: Vec<char> = Vec::new();
    lead.push('<');
    lead.push('@');
    let r = build_token(&lead, id);
    proof {
        assert(lead@ =~= seq!['<', '@']);
        assert(r@ =~= user_token(id));
    }
    r
}

/// Build the channel mention token `<#id>`.
pub fn build_channel_token(id: u64) -> (r: Vec<char>)
    ensures
        r@ == channel_token(id),
{
    let mut lead: Vec<char> = Vec::new();
    lead.push('<');
    lead.push('#');
    let r = build_token(&lead, id);
    proof {
        assert(lead@ =~= seq!['<', '#']);
        assert(r@ =~= channel_token(id));
    }
    r
}

/// Build the role mention token `<@&id>`.
pub fn build_role_token(id: u64) -> (r: Vec<char>)
    ensures
        r@ == role_token(id),
{
    let mut lead: Vec<char> = Vec::new();
    lead.push('<');
    lead.push('@');
    lead.push('&');
    let r = build_token(&lead, id);
    proof {
        assert(lead@ =~= seq!['<', '@', '&']);
        assert(r@ =~= role_token(id));
    }
    r
}

} // verus!
