//! Paths as text, with `/` between their parts.

use vstd::prelude::*;

verus! {

/// The path of the relative path `name` below the path `base`.
///
/// An empty `base` gives `name`, and a `base` that ends in `/` gets no second `/`.
pub open spec fn below(base: Seq<char>, name: Seq<char>) -> Seq<char> {
    if base.len() == 0 {
        name
    } else if base.last() == '/' {
        base + name
    } else {
        base + seq!['/'] + name
    }
}

/// Tells if `text` is empty or ends in `/`.
fn needs_no_separator(text: &str) -> (r: bool)
    ensures
        r == (text@.len() == 0 || text@.last() == '/'),
{
    let mut none: bool = true;
    for c in it: text.chars()
        invariant
            none == (it.index() == 0 || it.seq()[it.index() - 1] == '/'),
    {
        none = c == '/';
    }
    none
}

/// Gives the path of the relative path `name` below the path `base`.
pub fn join(base: &str, name: &str) -> (r: String)
    ensures
        r@ == below(base@, name@),
{
    let mut out = String::new();
    out.append(base);
    if !needs_no_separator(base) {
        out.append("/");
    }
    out.append(name);
    proof {
        reveal_strlit("/");
        assert("/"@ =~= seq!['/']);
        assert(out@ =~= below(base@, name@));
    }
    out
}

/// Paths below one directory end in the relative path, and relative paths of the same length
/// give different paths only if they differ.
pub proof fn lemma_below_ends(base: Seq<char>, name: Seq<char>)
    ensures
        below(base, name).len() >= name.len(),
        below(base, name).skip(below(base, name).len() - name.len()) == name,
{
    assert(below(base, name).skip(below(base, name).len() - name.len()) =~= name);
}

/// Two relative paths below one directory give the same path only if they are equal.
pub proof fn lemma_below_identifies(base: Seq<char>, a: Seq<char>, b: Seq<char>)
    requires
        below(base, a) == below(base, b),
    ensures
        a == b,
{
    lemma_below_ends(base, a);
    lemma_below_ends(base, b);
    assert(below(base, a).len() - a.len() == below(base, b).len() - b.len());
}

/// A joined path is the base and then the name, with one `/` between them. A base that is empty or
/// ends in `/` gets no other `/`.
pub proof fn law_join_puts_one_separator(base: &str, name: &str, r: String)
    requires
        call_ensures(join, (base, name), r),
    ensures
        base@.len() == 0 ==> r@ == name@,
        base@.len() > 0 && base@.last() == '/' ==> r@ == base@ + name@,
        base@.len() > 0 && base@.last() != '/' ==> r@ == base@.push('/') + name@,
{
    if base@.len() > 0 && base@.last() != '/' {
        assert(r@ =~= base@.push('/') + name@);
    }
}

} // verus!
