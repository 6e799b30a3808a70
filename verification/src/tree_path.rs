//! Paths of the entries of a tree, in their order.
//!
//! A path comes before another path if its first component that differs comes before, or if the
//! other path has more components. Components are in the order of their characters.

use vstd::prelude::*;

use crate::sorted::{Key, Order};
use crate::text::{self, chars_of};

verus! {

/// Whether `less` is a strict total order.
pub open spec fn strict_total<A>(less: spec_fn(A, A) -> bool) -> bool {
    &&& forall|a: A| !#[trigger] less(a, a)
    &&& forall|a: A, b: A, c: A| #[trigger] less(a, b) && #[trigger] less(b, c) ==> less(a, c)
    &&& forall|a: A, b: A| #[trigger] less(a, b) || a == b || less(b, a)
}

/// Whether `a` and `b` have the same first `k` items, and `a` comes before `b` at the position `k`.
pub open spec fn before_at<A>(a: Seq<A>, b: Seq<A>, k: int, less: spec_fn(A, A) -> bool) -> bool {
    &&& 0 <= k <= a.len()
    &&& k < b.len()
    &&& forall|i: int| 0 <= i < k ==> #[trigger] a[i] == b[i]
    &&& k == a.len() || less(a[k], b[k])
}

/// Whether `a` comes before `b` in the order of their first items that differ.
pub open spec fn comes_before<A>(a: Seq<A>, b: Seq<A>, less: spec_fn(A, A) -> bool) -> bool {
    exists|k: int| before_at(a, b, k, less)
}

/// The order of sequences whose items have the order `less`.
pub open spec fn sequence_order<A>(less: spec_fn(A, A) -> bool) -> spec_fn(Seq<A>, Seq<A>) -> bool {
    |a: Seq<A>, b: Seq<A>| comes_before(a, b, less)
}

/// The order of characters.
pub open spec fn char_order() -> spec_fn(char, char) -> bool {
    |a: char, b: char| a < b
}

/// The order of texts.
pub open spec fn text_order() -> spec_fn(Seq<char>, Seq<char>) -> bool {
    sequence_order(char_order())
}

/// The order of paths.
pub open spec fn path_order() -> spec_fn(Seq<Seq<char>>, Seq<Seq<char>>) -> bool {
    sequence_order(text_order())
}

/// The order of lists of paths.
pub open spec fn group_order() -> spec_fn(Seq<Seq<Seq<char>>>, Seq<Seq<Seq<char>>>) -> bool {
    sequence_order(path_order())
}

/// The order of sequences is a strict total order if the order of their items is.
pub proof fn lemma_sequence_order<A>(less: spec_fn(A, A) -> bool)
    requires
        strict_total(less),
    ensures
        strict_total(sequence_order(less)),
{
    let order = sequence_order(less);
    assert forall|a: Seq<A>| !#[trigger] order(a, a) by {
        if comes_before(a, a, less) {
            let k = choose|k: int| before_at(a, a, k, less);
            assert(before_at(a, a, k, less));
        }
    }
    assert forall|a: Seq<A>, b: Seq<A>, c: Seq<A>| #[trigger] order(a, b) && #[trigger] order(
        b,
        c,
    ) implies order(a, c) by {
        let j = choose|k: int| before_at(a, b, k, less);
        let k = choose|k: int| before_at(b, c, k, less);
        assert(before_at(a, b, j, less) && before_at(b, c, k, less));
        let m = if j < k {
            j
        } else {
            k
        };
        assert forall|i: int| 0 <= i < m implies #[trigger] a[i] == c[i] by {
            assert(a[i] == b[i]);
            assert(b[i] == c[i]);
        }
        if j < k {
            assert(b[j] == c[j]);
        } else if k < j {
            assert(a[k] == b[k]);
        }
        assert(before_at(a, c, m, less));
    }
    assert forall|a: Seq<A>, b: Seq<A>| #[trigger] order(a, b) || a == b || order(b, a) by {
        lemma_sequences_compare(a, b, 0, less);
    }
}

/// Two sequences with the same first `n` items are equal, or one comes before the other.
proof fn lemma_sequences_compare<A>(a: Seq<A>, b: Seq<A>, n: int, less: spec_fn(A, A) -> bool)
    requires
        strict_total(less),
        0 <= n <= a.len(),
        n <= b.len(),
        forall|i: int| 0 <= i < n ==> #[trigger] a[i] == b[i],
    ensures
        comes_before(a, b, less) || a == b || comes_before(b, a, less),
    decreases a.len() - n,
{
    if n == a.len() && n == b.len() {
        assert(a =~= b);
    } else if n == a.len() {
        assert(before_at(a, b, n, less));
    } else if n == b.len() {
        assert forall|i: int| 0 <= i < n implies #[trigger] b[i] == a[i] by {
            assert(a[i] == b[i]);
        }
        assert(before_at(b, a, n, less));
    } else if less(a[n], b[n]) {
        assert(before_at(a, b, n, less));
    } else if less(b[n], a[n]) {
        assert forall|i: int| 0 <= i < n implies #[trigger] b[i] == a[i] by {
            assert(a[i] == b[i]);
        }
        assert(before_at(b, a, n, less));
    } else {
        assert(a[n] == b[n]);
        lemma_sequences_compare(a, b, n + 1, less);
    }
}

/// The orders of texts, paths and lists of paths are strict total orders.
pub proof fn lemma_orders()
    ensures
        strict_total(char_order()),
        strict_total(text_order()),
        strict_total(path_order()),
        strict_total(group_order()),
{
    lemma_sequence_order(char_order());
    lemma_sequence_order(text_order());
    lemma_sequence_order(path_order());
}

/// Whether `r` tells how `a` stands to `b` in the order `less`.
pub open spec fn is_order<A>(r: Order, a: A, b: A, less: spec_fn(A, A) -> bool) -> bool {
    match r {
        Order::Before => less(a, b),
        Order::Same => a == b,
        Order::After => less(b, a),
    }
}

/// Tells how the text `a` stands to the text `b`.
pub fn order_texts(a: &str, b: &str) -> (r: Order)
    ensures
        is_order(r, a@, b@, text_order()),
{
    let left = chars_of(a);
    let right = chars_of(b);
    let mut k: usize = 0;
    while k < left.len() && k < right.len()
        invariant
            left@ == a@,
            right@ == b@,
            k <= left.len(),
            k <= right.len(),
            forall|i: int| 0 <= i < k ==> #[trigger] left@[i] == right@[i],
        decreases left.len() - k,
    {
        if left[k] < right[k] {
            assert(before_at(a@, b@, k as int, char_order()));
            return Order::Before;
        }
        if left[k] > right[k] {
            assert(before_at(b@, a@, k as int, char_order()));
            return Order::After;
        }
        k = k + 1;
    }
    if k < right.len() {
        assert(before_at(a@, b@, k as int, char_order()));
        Order::Before
    } else if k < left.len() {
        assert(before_at(b@, a@, k as int, char_order()));
        Order::After
    } else {
        assert(a@ =~= b@);
        Order::Same
    }
}

/// The path of an entry of a tree.
#[derive(Debug)]
pub struct TreePath {
    /// The components of the path.
    pub parts: Vec<String>,
}

impl View for TreePath {
    type V = Seq<Seq<char>>;

    open spec fn view(&self) -> Seq<Seq<char>> {
        text::texts(self.parts@)
    }
}

/// The paths of `group`.
pub open spec fn paths_of(group: Seq<TreePath>) -> Seq<Seq<Seq<char>>> {
    group.map_values(|path: TreePath| path@)
}

impl TreePath {
    /// Creates the path with the components `parts`.
    pub fn new(parts: Vec<String>) -> (r: Self)
        ensures
            r@ == text::texts(parts@),
    {
        TreePath { parts }
    }

    /// Gives the path of the entry `name` below this path.
    pub fn child(&self, name: &str) -> (r: Self)
        ensures
            r@ == self@.push(name@),
    {
        let mut r = self.duplicate();
        let ghost before = r@;
        let part = text::owned(name);
        r.parts.push(part);
        assert(r@ =~= before.push(name@));
        r
    }

    /// The text of the path, with `/` between its components.
    pub open spec fn path_text(path: Seq<Seq<char>>) -> Seq<char> {
        text::joined(path, "/"@)
    }

    /// Gives the text of the path, with `/` between its components.
    pub fn display(&self) -> (r: String)
        ensures
            r@ == Self::path_text(self@),
    {
        text::join(&self.parts, "/")
    }

    /// Tells how this path stands to `other`.
    pub fn order_to(&self, other: &Self) -> (r: Order)
        ensures
            is_order(r, self@, other@, path_order()),
    {
        let mut k: usize = 0;
        while k < self.parts.len() && k < other.parts.len()
            invariant
                k <= self.parts.len(),
                k <= other.parts.len(),
                forall|i: int| 0 <= i < k ==> #[trigger] self@[i] == other@[i],
            decreases self.parts.len() - k,
        {
            match order_texts(self.parts[k].as_str(), other.parts[k].as_str()) {
                Order::Before => {
                    assert(before_at(self@, other@, k as int, text_order()));
                    return Order::Before;
                },
                Order::After => {
                    assert(before_at(other@, self@, k as int, text_order()));
                    return Order::After;
                },
                Order::Same => {},
            }
            k = k + 1;
        }
        if k < other.parts.len() {
            assert(before_at(self@, other@, k as int, text_order()));
            Order::Before
        } else if k < self.parts.len() {
            assert(before_at(other@, self@, k as int, text_order()));
            Order::After
        } else {
            assert(self@ =~= other@);
            Order::Same
        }
    }
}

/// Tells how the list of paths `a` stands to the list of paths `b`.
pub fn order_groups(a: &Vec<TreePath>, b: &Vec<TreePath>) -> (r: Order)
    ensures
        is_order(r, paths_of(a@), paths_of(b@), group_order()),
{
    let mut k: usize = 0;
    while k < a.len() && k < b.len()
        invariant
            k <= a.len(),
            k <= b.len(),
            forall|i: int| 0 <= i < k ==> #[trigger] paths_of(a@)[i] == paths_of(b@)[i],
        decreases a.len() - k,
    {
        match a[k].order_to(&b[k]) {
            Order::Before => {
                assert(before_at(paths_of(a@), paths_of(b@), k as int, path_order()));
                return Order::Before;
            },
            Order::After => {
                assert(before_at(paths_of(b@), paths_of(a@), k as int, path_order()));
                return Order::After;
            },
            Order::Same => {},
        }
        k = k + 1;
    }
    if k < b.len() {
        assert(before_at(paths_of(a@), paths_of(b@), k as int, path_order()));
        Order::Before
    } else if k < a.len() {
        assert(before_at(paths_of(b@), paths_of(a@), k as int, path_order()));
        Order::After
    } else {
        assert(paths_of(a@) =~= paths_of(b@));
        Order::Same
    }
}

impl Key for TreePath {
    type Value = Seq<Seq<char>>;

    open spec fn value(&self) -> Seq<Seq<char>> {
        self@
    }

    open spec fn before(a: Seq<Seq<char>>, b: Seq<Seq<char>>) -> bool {
        path_order()(a, b)
    }

    proof fn lemma_irreflexive(a: Seq<Seq<char>>) {
        lemma_orders();
    }

    proof fn lemma_transitive(a: Seq<Seq<char>>, b: Seq<Seq<char>>, c: Seq<Seq<char>>) {
        lemma_orders();
        assert(path_order()(a, b) && path_order()(b, c));
    }

    fn order(&self, other: &Self) -> (r: Order) {
        self.order_to(other)
    }

    fn duplicate(&self) -> (r: Self) {
        let mut parts: Vec<String> = Vec::new();
        let n: usize = self.parts.len();
        for i in 0..n
            invariant
                n == self.parts.len(),
                parts.len() == i,
                forall|j: int| 0 <= j < i ==> (#[trigger] parts@[j])@ == self.parts@[j]@,
        {
            parts.push(text::owned(self.parts[i].as_str()));
        }
        let r = TreePath { parts };
        assert(r@ =~= self@);
        r
    }
}

/// Two texts or paths are in the order of the first place where they differ. A path comes before each
/// path that has more components after the same start. Where a component differs, its first character
/// that differs decides. Only equal paths are the same.
pub proof fn law_first_difference_decides(a: TreePath, b: TreePath, r: Order, k: int, c: int)
    requires
        call_ensures(TreePath::order_to, (&a, &b), r),
        0 <= k <= a@.len(),
        k <= b@.len(),
        a@.take(k) == b@.take(k),
    ensures
        r is Same <==> a@ == b@,
        k == a@.len() && k < b@.len() ==> r is Before,
        k == b@.len() && k < a@.len() ==> r is After,
        k < a@.len() && k < b@.len() && 0 <= c < a@[k].len() && c < b@[k].len() && a@[k].take(c)
            == b@[k].take(c) && a@[k][c] < b@[k][c] ==> r is Before,
        k < a@.len() && k < b@.len() && 0 <= c < a@[k].len() && c < b@[k].len() && a@[k].take(c)
            == b@[k].take(c) && a@[k][c] > b@[k][c] ==> r is After,
        k < a@.len() && k < b@.len() && a@[k].len() < b@[k].len() && a@[k] == b@[k].take(
            a@[k].len() as int,
        ) ==> r is Before,
{
    lemma_orders();
    let less = path_order();
    let (x, y) = (a@, b@);
    assert(forall|i: int| 0 <= i < k ==> #[trigger] x[i] == y[i]) by {
        assert forall|i: int| 0 <= i < k implies #[trigger] x[i] == y[i] by {
            assert(x.take(k)[i] == y.take(k)[i]);
        }
    }
    assert(forall|i: int| 0 <= i < k ==> #[trigger] y[i] == x[i]) by {
        assert forall|i: int| 0 <= i < k implies #[trigger] y[i] == x[i] by {
            assert(x.take(k)[i] == y.take(k)[i]);
        }
    }
    if k == x.len() && k < y.len() {
        assert(before_at(x, y, k, text_order()));
        assert(less(x, y));
    }
    if k == y.len() && k < x.len() {
        assert(before_at(y, x, k, text_order()));
        assert(less(y, x));
    }
    if k < x.len() && k < y.len() {
        let (s, t) = (x[k], y[k]);
        if 0 <= c < s.len() && c < t.len() && s.take(c) == t.take(c) {
            assert forall|i: int| 0 <= i < c implies #[trigger] s[i] == t[i] by {
                assert(s.take(c)[i] == t.take(c)[i]);
            }
            assert forall|i: int| 0 <= i < c implies #[trigger] t[i] == s[i] by {
                assert(s.take(c)[i] == t.take(c)[i]);
            }
            if s[c] < t[c] {
                assert(before_at(s, t, c, char_order()));
                assert(before_at(x, y, k, text_order()));
                assert(less(x, y));
            }
            if s[c] > t[c] {
                assert(before_at(t, s, c, char_order()));
                assert(before_at(y, x, k, text_order()));
                assert(less(y, x));
            }
        }
        if s.len() < t.len() && s == t.take(s.len() as int) {
            assert forall|i: int| 0 <= i < s.len() implies #[trigger] s[i] == t[i] by {
                assert(t.take(s.len() as int)[i] == t[i]);
            }
            assert(before_at(s, t, s.len() as int, char_order()));
            assert(before_at(x, y, k, text_order()));
            assert(less(x, y));
        }
    }
    assert(!(less(x, y) && less(y, x))) by {
        if less(x, y) && less(y, x) {
            assert(less(x, x));
        }
    }
    assert(!less(x, x) && !less(y, y));
}

/// The text of a path below another path is the text of that path, `/`, and the name. The text of a
/// single name is the name.
pub proof fn law_text_of_a_child(
    path: TreePath,
    name: &str,
    child: TreePath,
    texts: (String, String),
)
    requires
        call_ensures(TreePath::child, (&path, name), child),
        call_ensures(TreePath::display, (&path,), texts.0),
        call_ensures(TreePath::display, (&child,), texts.1),
    ensures
        child@.len() == path@.len() + 1,
        child@.last() == name@,
        child@.drop_last() == path@,
        path@.len() > 0 ==> texts.1@ == texts.0@ + seq!['/'] + name@,
        path@.len() == 0 ==> texts.0@.len() == 0 && texts.1@ == name@,
{
    reveal_strlit("/");
    assert("/"@ =~= seq!['/']);
    assert(child@.drop_last() =~= path@);
    text::law_joined_texts_follow_each_other(path@, name@, "/"@);
    if path@.len() == 0 {
        assert(child@ =~= seq![name@]);
        assert(path@ =~= Seq::empty());
    }
}

} // verus!
