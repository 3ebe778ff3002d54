use vstd::prelude::*;
use vstd::string::StringExecFns;
use vstd::string::StrSliceExecFns;

verus! {

/// The alphabet that generic variable names are drawn from.
pub open spec fn alphabet() -> Seq<char> {
    "abcdefghijklmnopqrstuvwxyz"@
}

/// The name of the variable discovered at position `n` (counting from 0) in
/// a session: `a` to `z`, then `aa` to `az`, `ba`, ... as spreadsheet
/// columns are named, with no letter standing for zero.
pub open spec fn letter_name(n: nat) -> Seq<char>
    decreases n,
{
    if n < 26 {
        seq![alphabet()[n as int]]
    } else {
        letter_name((n / 26 - 1) as nat).push(alphabet()[(n % 26) as int])
    }
}

proof fn lemma_letter_name_len(n: nat)
    ensures
        letter_name(n).len() >= 1,
        n >= 26 ==> letter_name(n).len() >= 2,
    decreases n,
{
    if n >= 26 {
        lemma_letter_name_len((n / 26 - 1) as nat);
    }
}

/// Variables discovered at different positions of a session get different
/// names.
pub proof fn lemma_letter_names_distinct(m: nat, n: nat)
    requires
        m != n,
    ensures
        letter_name(m) != letter_name(n),
    decreases m + n,
{
    reveal_strlit("abcdefghijklmnopqrstuvwxyz");
    lemma_letter_name_len(m);
    lemma_letter_name_len(n);
    if m < 26 && n < 26 {
        assert(letter_name(m)[0] != letter_name(n)[0]);
    } else if m < 26 || n < 26 {
        assert(letter_name(m).len() != letter_name(n).len());
    } else {
        let a = letter_name(m);
        let b = letter_name(n);
        if m % 26 != n % 26 {
            assert(a[a.len() - 1] == alphabet()[(m % 26) as int]);
            assert(b[b.len() - 1] == alphabet()[(n % 26) as int]);
        } else {
            let pm = (m / 26 - 1) as nat;
            let pn = (n / 26 - 1) as nat;
            assert(pm != pn);
            lemma_letter_names_distinct(pm, pn);
            if a == b {
                assert(a.subrange(0, a.len() - 1) =~= letter_name(pm));
                assert(b.subrange(0, b.len() - 1) =~= letter_name(pn));
            }
        }
    }
}

/// One letter of the alphabet, as a string.
fn single_letter(d: u64) -> (r: String)
    requires
        d < 26,
    ensures
        r@ == seq![alphabet()[d as int]],
{
    let letters = "abcdefghijklmnopqrstuvwxyz";
    proof {
        reveal_strlit("abcdefghijklmnopqrstuvwxyz");
    }
    let piece = letters.substring_char(d as usize, d as usize + 1);
    let r = String::from_str(piece);
    assert(r@ =~= seq![alphabet()[d as int]]);
    r
}

/// The name given to the `n`-th distinct variable of a session.
pub fn letter_text(n: u64) -> (r: String)
    ensures
        r@ == letter_name(n as nat),
    decreases n,
{
    if n < 26 {
        single_letter(n)
    } else {
        let mut r = letter_text(n / 26 - 1);
        let last = single_letter(n % 26);
        r.append(last.as_str());
        assert(r@ =~= letter_name(n as nat));
        r
    }
}

} // verus!
