//! Project identifiers and URL checks.
use vstd::prelude::*;

use crate::constants::ProjectId;
use crate::CallContext;

verus! {

/// The decimal digit for `d < 10`.
pub open spec fn digit_char(d: nat) -> char {
    (48 + d) as char
}

/// `n` written in decimal, without sign or leading zeros.
pub open spec fn decimal(n: nat) -> Seq<char>
    decreases n,
{
    if n < 10 {
        seq![digit_char(n)]
    } else {
        decimal(n / 10) + seq![digit_char(n % 10)]
    }
}

/// The identifier of a project that `creator` creates in block `block_index`:
/// the creator's account, `#`, and the block height in decimal.
pub open spec fn project_id_for(creator: Seq<char>, block_index: u64) -> Seq<char> {
    creator + seq!['#'] + decimal(block_index as nat)
}

/// `id` is named after `owner`: it is `owner`, then `#`, then characters
/// none of which is `#`. The owner is thus what comes before the last `#`.
pub open spec fn named_after(id: Seq<char>, owner: Seq<char>) -> bool {
    &&& id.len() > owner.len()
    &&& id.subrange(0, owner.len() as int) == owner
    &&& id[owner.len() as int] == '#'
    &&& forall|i: int| owner.len() < i < id.len() ==> #[trigger] id[i] != '#'
}

/// No decimal digit is `#`.
pub proof fn lemma_decimal_has_no_hash(n: nat)
    ensures
        forall|i: int| 0 <= i < decimal(n).len() ==> #[trigger] decimal(n)[i] != '#',
    decreases n,
{
    if n < 10 {
        assert(digit_char(n) != '#');
    } else {
        lemma_decimal_has_no_hash(n / 10);
        let d = digit_char(n % 10);
        assert(d != '#');
        assert forall|i: int| 0 <= i < decimal(n).len() implies #[trigger] decimal(n)[i] != '#' by {
            if i < decimal(n / 10).len() {
                assert(decimal(n)[i] == decimal(n / 10)[i]);
            } else {
                assert(decimal(n)[i] == d);
            }
        }
    }
}

/// A project's identifier is named after its creator.
pub proof fn lemma_project_id_named_after(creator: Seq<char>, block_index: u64)
    ensures
        named_after(project_id_for(creator, block_index), creator),
{
    let id = project_id_for(creator, block_index);
    let d = decimal(block_index as nat);
    lemma_decimal_has_no_hash(block_index as nat);
    assert(id.subrange(0, creator.len() as int) =~= creator);
    assert(id[creator.len() as int] == '#');
    assert forall|i: int| creator.len() < i < id.len() implies #[trigger] id[i] != '#' by {
        assert(id[i] == d[i - creator.len() - 1]);
    }
}

/// An identifier is named after one owner at most.
pub proof fn lemma_named_after_unique(id: Seq<char>, a: Seq<char>, b: Seq<char>)
    requires
        named_after(id, a),
        named_after(id, b),
    ensures
        a == b,
{
    if a.len() < b.len() {
        assert(id[b.len() as int] == '#');
    } else if b.len() < a.len() {
        assert(id[a.len() as int] == '#');
    } else {
        assert(a =~= b) by {
            assert forall|i: int| 0 <= i < a.len() implies a[i] == b[i] by {
                assert(a[i] == id.subrange(0, a.len() as int)[i]);
                assert(b[i] == id.subrange(0, b.len() as int)[i]);
            }
        }
    }
}

/// Whether `id` is named after `owner`.
pub fn is_named_after(id: &String, owner: &String) -> (r: bool)
    ensures
        r == named_after(id@, owner@),
{
    let text = id.as_str();
    let prefix = owner.as_str();
    assert(text@ == id@ && prefix@ == owner@);
    let n = text.unicode_len();
    let m = prefix.unicode_len();
    if n <= m {
        return false;
    }
    let mut i: usize = 0;
    while i < m
        invariant
            text@ == id@,
            prefix@ == owner@,
            n == id@.len(),
            m == owner@.len(),
            m < n,
            i <= m,
            forall|j: int| 0 <= j < i ==> id@[j] == owner@[j],
        decreases m - i,
    {
        if text.get_char(i) != prefix.get_char(i) {
            assert(id@.subrange(0, m as int)[i as int] != owner@[i as int]);
            assert(id@.subrange(0, m as int) != owner@);
            return false;
        }
        i = i + 1;
    }
    assert(id@.subrange(0, m as int) =~= owner@);
    if text.get_char(m) != '#' {
        return false;
    }
    let mut k: usize = m + 1;
    while k < n
        invariant
            text@ == id@,
            prefix@ == owner@,
            n == id@.len(),
            m == owner@.len(),
            m < k <= n,
            id@.subrange(0, m as int) == owner@,
            id@[m as int] == '#',
            forall|j: int| m < j < k ==> #[trigger] id@[j] != '#',
        decreases n - k,
    {
        if text.get_char(k) == '#' {
            assert(id@[k as int] == '#');
            assert(!named_after(id@, owner@));
            return false;
        }
        k = k + 1;
    }
    true
}

/// The decimal digit for `d < 10`, as a string.
fn digit_str(d: u64) -> (r: &'static str)
    requires
        d < 10,
    ensures
        r@ == seq![digit_char(d as nat)],
{
    match d {
        0 => {
            proof {
                reveal_strlit("0");
            }
            "0"
        },
        1 => {
            proof {
                reveal_strlit("1");
            }
            "1"
        },
        2 => {
            proof {
                reveal_strlit("2");
            }
            "2"
        },
        3 => {
            proof {
                reveal_strlit("3");
            }
            "3"
        },
        4 => {
            proof {
                reveal_strlit("4");
            }
            "4"
        },
        5 => {
            proof {
                reveal_strlit("5");
            }
            "5"
        },
        6 => {
            proof {
                reveal_strlit("6");
            }
            "6"
        },
        7 => {
            proof {
                reveal_strlit("7");
            }
            "7"
        },
        8 => {
            proof {
                reveal_strlit("8");
            }
            "8"
        },
        _ => {
            proof {
                reveal_strlit("9");
            }
            "9"
        },
    }
}

/// `n` in decimal.
fn decimal_string(n: u64) -> (s: String)
    ensures
        s@ == decimal(n as nat),
    decreases n,
{
    if n < 10 {
        String::from_str(digit_str(n))
    } else {
        let head = decimal_string(n / 10);
        let s = head.concat(digit_str(n % 10));
        assert(s@ =~= decimal((n / 10) as nat) + seq![digit_char((n % 10) as nat)]);
        s
    }
}

/// The identifier for a project created by the caller of `ctx`.
pub fn gen_proj_id(ctx: &CallContext) -> (id: ProjectId)
    ensures
        id@ == project_id_for(ctx.predecessor_account_id@, ctx.block_index),
{
    let digits = decimal_string(ctx.block_index);
    let with_separator = ctx.predecessor_account_id.clone().concat("#");
    proof {
        reveal_strlit("#");
    }
    let id = with_separator.concat(digits.as_str());
    assert(id@ =~= ctx.predecessor_account_id@ + seq!['#'] + decimal(ctx.block_index as nat));
    id
}

/// Whether the `url` crate parses `input` as an absolute URL.
pub uninterp spec fn url_parses(input: Seq<char>) -> bool;

/// Calls `url::Url::parse` and tells whether it succeeded. The parse
/// depends on the input alone, so its success is named `url_parses`; what
/// the crate accepts is not restated here.
#[verifier::external_body]
fn parse_url_succeeds(input: &str) -> (ok: bool)
    ensures
        ok == url_parses(input@),
{
    url::Url::parse(input).is_ok()
}

/// Whether `maybe_url` is a URL that the `url` crate accepts.
pub fn valid_url(maybe_url: String) -> (r: bool)
    ensures
        r == url_parses(maybe_url@),
{
    parse_url_succeeds(maybe_url.as_str())
}

} // verus!
