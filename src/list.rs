use std::rc::Rc;
use vstd::prelude::*;
use vstd::std_specs::cmp::PartialEqSpec;
use vstd::string::{to_string_from_display_ensures, StringExecFns};

verus! {

/// One node of a persistent list; a list is named by its head node.
///
/// Nodes are never changed after they are built, so any number of lists may
/// share the same tail.
pub struct LinkedList<T> {
    pub data: T,
    pub next: Option<Rc<LinkedList<T>>>,
}

impl<T> LinkedList<T> {
    /// The elements from this node to the end of the chain.
    pub open spec fn items(self) -> Seq<T>
        decreases self,
    {
        match self.next {
            Some(n) => seq![self.data].add((*n).items()),
            None => seq![self.data],
        }
    }

    /// A node's elements are its own element followed by those of its tail.
    pub proof fn lemma_unfold(self)
        ensures
            self@ == seq![self.data].add(items_of(self.next)),
            self@.len() >= 1,
            self@[0] == self.data,
            self@.drop_first() == items_of(self.next),
    {
        assert(seq![self.data].add(items_of(self.next)).drop_first() =~= items_of(self.next));
    }
}

impl<T> View for LinkedList<T> {
    type V = Seq<T>;

    open spec fn view(&self) -> Seq<T> {
        self.items()
    }
}

/// The elements of a list that may be empty.
pub open spec fn items_of<T>(l: Option<Rc<LinkedList<T>>>) -> Seq<T> {
    match l {
        Some(n) => (*n)@,
        None => Seq::empty(),
    }
}

/// Index of the first element of `s` equal to `v` under `T`'s equality.
pub open spec fn first_index<T: PartialEq>(s: Seq<T>, v: T) -> Option<int>
    decreases s.len(),
{
    if s.len() == 0 {
        None
    } else if s[0].eq_spec(&v) {
        Some(0)
    } else {
        match first_index(s.drop_first(), v) {
            Some(i) => Some(i + 1),
            None => None,
        }
    }
}

/// `first_index` is the least position holding an element equal to `v`, and
/// is `None` exactly when no position does.
pub proof fn lemma_first_index<T: PartialEq>(s: Seq<T>, v: T)
    ensures
        match first_index(s, v) {
            Some(i) => {
                &&& 0 <= i < s.len()
                &&& s[i].eq_spec(&v)
                &&& forall|j: int| 0 <= j < i ==> !(#[trigger] s[j]).eq_spec(&v)
            },
            None => forall|j: int| 0 <= j < s.len() ==> !(#[trigger] s[j]).eq_spec(&v),
        },
    decreases s.len(),
{
    if s.len() > 0 && !s[0].eq_spec(&v) {
        let t = s.drop_first();
        lemma_first_index(t, v);
        assert forall|j: int| 1 <= j < s.len() implies s[j] == t[j - 1] by {}
        match first_index(t, v) {
            Some(i) => {
                assert forall|j: int| 0 <= j < i + 1 implies !(#[trigger] s[j]).eq_spec(&v) by {
                    if j > 0 {
                        assert(s[j] == t[j - 1]);
                    }
                }
            },
            None => {
                assert forall|j: int| 0 <= j < s.len() implies !(#[trigger] s[j]).eq_spec(&v) by {
                    if j > 0 {
                        assert(s[j] == t[j - 1]);
                    }
                }
            },
        }
    }
}

/// `b` holds, position by position, a duplicate of each element of `a`.
pub open spec fn copy_of<T: Clone>(a: Seq<T>, b: Seq<T>) -> bool {
    &&& a.len() == b.len()
    &&& forall|i: int| 0 <= i < a.len() ==> cloned::<T>(#[trigger] a[i], b[i])
}

/// The elements left once the first element equal to `v` is taken out.
pub open spec fn without_first<T: PartialEq>(s: Seq<T>, v: T) -> Seq<T> {
    match first_index(s, v) {
        Some(k) => s.remove(k),
        None => s,
    }
}

impl<T: PartialEq + Clone> LinkedList<T> {
    /// Removes the first element equal to `val`. The nodes before it are
    /// duplicated; the nodes after it are shared with `self`. When no element
    /// matches, the whole list is duplicated. An empty result is `None`.
    ///
    /// What is said of the result holds where `T`'s `==` is the one that its
    /// `eq_spec` describes, as for the integer types.
    pub fn delete_val(&self, val: &T) -> (r: Option<Rc<LinkedList<T>>>)
        ensures
            T::obeys_eq_spec() ==> copy_of(without_first(self@, *val), items_of(r)),
            T::obeys_eq_spec() ==> (r is None <==> without_first(self@, *val).len() == 0),
            T::obeys_eq_spec() ==> (first_index(self@, *val) matches Some(k) ==> items_of(r).skip(k)
                == self@.skip(k + 1)),
    {
        let mut prefix: Vec<T> = Vec::new();
        let mut cur: &LinkedList<T> = self;
        let mut rest: Option<Rc<LinkedList<T>>> = None;
        let ghost mut k: int = 0;
        let ghost mut found: bool = false;
        loop
            invariant_except_break
                !found,
                rest is None,
                0 <= k < self@.len(),
                cur@ == self@.skip(k),
                prefix@.len() == k,
                forall|j: int| 0 <= j < k ==> cloned::<T>(#[trigger] self@[j], prefix@[j]),
                T::obeys_eq_spec() ==> first_index(self@, *val) == match first_index(cur@, *val) {
                    Some(i) => Some(i + k),
                    None => None,
                },
            ensures
                0 <= k <= self@.len(),
                prefix@.len() == k,
                forall|j: int| 0 <= j < k ==> cloned::<T>(#[trigger] self@[j], prefix@[j]),
                found ==> k < self@.len() && items_of(rest) == self@.skip(k + 1),
                found && T::obeys_eq_spec() ==> first_index(self@, *val) == Some(k),
                !found ==> k == self@.len() && rest is None,
                !found && T::obeys_eq_spec() ==> first_index(self@, *val) is None,
            decreases self@.len() - k,
        {
            assert(self@.skip(k + 1) =~= self@.skip(k).drop_first());
            if cur.data == *val {
                rest = match &cur.next {
                    Some(nx) => Some(Rc::clone(nx)),
                    None => None,
                };
                proof {
                    found = true;
                }
                break;
            }
            prefix.push(cur.data.clone());
            match &cur.next {
                Some(nx) => {
                    assert(cur@.drop_first() =~= (**nx)@);
                    cur = &**nx;
                    proof {
                        k = k + 1;
                    }
                },
                None => {
                    assert(cur@ == seq![cur.data]);
                    assert(first_index(cur@.drop_first(), *val) is None);
                    proof {
                        k = k + 1;
                    }
                    break;
                },
            }
        }
        let ghost copies = prefix@;
        let ghost tail = items_of(rest);
        let mut acc = rest;
        while prefix.len() > 0
            invariant
                prefix@.len() <= copies.len(),
                prefix@ == copies.subrange(0, prefix@.len() as int),
                items_of(acc) == copies.subrange(prefix@.len() as int, copies.len() as int).add(tail),
            decreases prefix.len(),
        {
            let d = prefix.pop().unwrap();
            acc = Some(Rc::new(LinkedList { data: d, next: acc }));
            assert(prefix@ =~= copies.subrange(0, prefix@.len() as int));
            assert(items_of(acc) =~= copies.subrange(prefix@.len() as int, copies.len() as int).add(
                tail,
            ));
        }
        assert(items_of(acc).skip(k) =~= tail);
        acc
    }

    /// Number of nodes from this head to the end.
    pub fn length(&self) -> (r: i32)
        requires
            self@.len() <= i32::MAX,
        ensures
            r as int == self@.len(),
    {
        let mut cur: &LinkedList<T> = self;
        let mut n: i32 = 1;
        loop
            invariant
                1 <= n <= self@.len(),
                cur@ == self@.skip(n - 1),
                self@.len() <= i32::MAX,
            decreases self@.len() - n,
        {
            match &cur.next {
                Some(nx) => {
                    assert(cur@ == seq![cur.data].add((**nx)@));
                    assert(self@.skip(n as int) =~= self@.skip(n - 1).drop_first());
                    cur = &**nx;
                    n = n + 1;
                },
                None => {
                    assert(cur@ == seq![cur.data]);
                    return n;
                },
            }
        }
    }

    /// Position of the first element equal to `val`, walking from the head.
    ///
    /// What is said of the result holds where `T`'s `==` is the one that its
    /// `eq_spec` describes, as for the integer types.
    pub fn find(&self, val: T) -> (r: Option<i32>)
        requires
            self@.len() <= i32::MAX,
        ensures
            T::obeys_eq_spec() ==> match first_index(self@, val) {
                Some(i) => r == Some(i as i32),
                None => r is None,
            },
    {
        let mut cur: &LinkedList<T> = self;
        let mut k: i32 = 0;
        loop
            invariant
                0 <= k < self@.len(),
                self@.len() <= i32::MAX,
                cur@ == self@.skip(k as int),
                T::obeys_eq_spec() ==> first_index(self@, val) == match first_index(cur@, val) {
                    Some(i) => Some(i + k),
                    None => None,
                },
            decreases self@.len() - k,
        {
            if cur.data == val {
                return Some(k);
            }
            match &cur.next {
                Some(nx) => {
                    assert(cur@.drop_first() =~= (**nx)@);
                    assert(self@.skip(k + 1) =~= self@.skip(k as int).drop_first());
                    cur = &**nx;
                    k = k + 1;
                },
                None => {
                    assert(cur@ == seq![cur.data]);
                    assert(first_index(cur@.drop_first(), val) is None);
                    return None;
                },
            }
        }
    }

    /// A copy of the node at position `idx`, or `None` when `idx` is out of range.
    /// The copy duplicates that node's element and shares its tail.
    pub fn get(&self, idx: i32) -> (r: Option<LinkedList<T>>)
        ensures
            r is Some <==> 0 <= idx < self@.len(),
            r matches Some(x) ==> cloned::<T>(self@[idx as int], x.data) && x@.drop_first()
                == self@.skip(idx + 1),
    {
        if idx < 0 {
            return None;
        }
        let mut cur: &LinkedList<T> = self;
        let mut i: i32 = 0;
        loop
            invariant
                0 <= i <= idx,
                i < self@.len(),
                cur@ == self@.skip(i as int),
            decreases idx - i,
        {
            proof {
                cur.lemma_unfold();
            }
            if i == idx {
                let x = cur.clone();
                proof {
                    x.lemma_unfold();
                }
                assert(x@.drop_first() =~= self@.skip(idx + 1));
                return Some(x);
            }
            match &cur.next {
                Some(nx) => {
                    assert(self@.skip(i + 1) =~= self@.skip(i as int).drop_first());
                    cur = &**nx;
                    i = i + 1;
                },
                None => {
                    assert(cur@ == seq![cur.data]);
                    return None;
                },
            }
        }
    }

    /// A new list with `val` at its head and a copy of `self` after it; the
    /// copy duplicates the head element of `self` and shares the rest.
    pub fn insert_val(&self, val: T) -> (r: LinkedList<T>)
        ensures
            r@.len() == self@.len() + 1,
            r@[0] == val,
            copy_of(self@, r@.drop_first()),
            r.next matches Some(n) && n.next == self.next,
    {
        let c = self.clone();
        let r = LinkedList { data: val, next: Some(Rc::new(c)) };
        proof {
            r.lemma_unfold();
            c.lemma_unfold();
            self.lemma_unfold();
        }
        r
    }
}

impl<T: Clone> Clone for LinkedList<T> {
    /// Duplicates the head element and shares the tail.
    fn clone(&self) -> (r: Self)
        ensures
            cloned::<T>(self.data, r.data),
            r.next == self.next,
    {
        LinkedList {
            data: self.data.clone(),
            next: match &self.next {
                Some(n) => Some(Rc::clone(n)),
                None => None,
            },
        }
    }
}

/// Same length, and each pair of elements at one position equal under `T`'s equality.
pub open spec fn same_items<T: PartialEq>(a: Seq<T>, b: Seq<T>) -> bool {
    &&& a.len() == b.len()
    &&& forall|i: int| 0 <= i < a.len() ==> (#[trigger] a[i]).eq_spec(&b[i])
}

impl<T: PartialEq> PartialEq for LinkedList<T> {
    /// Two lists are equal when they have the same length and equal elements
    /// position by position.
    fn eq(&self, other: &Self) -> (r: bool) {
        let mut a: &LinkedList<T> = self;
        let mut b: &LinkedList<T> = other;
        let ghost mut k: int = 0;
        loop
            invariant
                0 <= k < self@.len(),
                0 <= k < other@.len(),
                a@ == self@.skip(k),
                b@ == other@.skip(k),
                T::obeys_eq_spec() ==> forall|i: int|
                    0 <= i < k ==> (#[trigger] self@[i]).eq_spec(&other@[i]),
            decreases self@.len() - k,
        {
            proof {
                a.lemma_unfold();
                b.lemma_unfold();
            }
            if !(a.data == b.data) {
                return false;
            }
            match (&a.next, &b.next) {
                (Some(x), Some(y)) => {
                    assert(self@.skip(k + 1) =~= self@.skip(k).drop_first());
                    assert(other@.skip(k + 1) =~= other@.skip(k).drop_first());
                    a = &**x;
                    b = &**y;
                    proof {
                        k = k + 1;
                    }
                },
                (None, None) => {
                    assert(a@ == seq![a.data]);
                    assert(b@ == seq![b.data]);
                    return true;
                },
                _ => {
                    return false;
                },
            }
        }
    }
}

impl<T: PartialEq> vstd::std_specs::cmp::PartialEqSpecImpl for LinkedList<T> {
    open spec fn obeys_eq_spec() -> bool {
        T::obeys_eq_spec()
    }

    open spec fn eq_spec(&self, other: &LinkedList<T>) -> bool {
        same_items(self@, other@)
    }
}

/// The integers `start, start + 1, ..., start + len - 1`.
pub open spec fn run_from(start: int, len: int) -> Seq<i32> {
    Seq::new(len as nat, |i: int| (start + i) as i32)
}

/// Builds the list `start, start + 1, ..., start + len - 1`.
pub fn create_i32_list(start: i32, len: i32) -> (r: Rc<LinkedList<i32>>)
    requires
        len >= 1,
        start + len - 1 <= i32::MAX,
    ensures
        (*r)@ == run_from(start as int, len as int),
{
    let mut i: i32 = len - 1;
    let mut acc: Rc<LinkedList<i32>> = Rc::new(LinkedList { data: start + i, next: None });
    while i > 0
        invariant
            0 <= i < len,
            start + len - 1 <= i32::MAX,
            (*acc)@ =~= run_from(start as int, len as int).skip(i as int),
        decreases i,
    {
        i = i - 1;
        acc = Rc::new(LinkedList { data: start + i, next: Some(acc) });
        assert((*acc)@ =~= run_from(start as int, len as int).skip(i as int));
    }
    acc
}

/// The text `{ t0 } -> { t1 } -> ... ` for the element texts `texts`.
pub open spec fn rendered_items(texts: Seq<String>) -> Seq<char>
    decreases texts.len(),
{
    if texts.len() == 0 {
        Seq::empty()
    } else {
        rendered_items(texts.drop_last()) + "{ "@ + texts.last()@ + " } -> "@
    }
}

/// `texts` holds, position by position, the `Display` text of each element of `s`.
pub open spec fn display_texts<T: std::fmt::Display>(s: Seq<T>, texts: Seq<String>) -> bool {
    &&& texts.len() == s.len()
    &&& forall|i: int|
        0 <= i < s.len() ==> to_string_from_display_ensures::<T>(&s[i], #[trigger] texts[i])
}

impl<T: std::fmt::Display> LinkedList<T> {
    /// Text of the list for debugging, `{ v0 } -> { v1 } -> ... -> {}`.
    pub fn render(&self) -> (r: String)
        ensures
            exists|texts: Seq<String>|
                display_texts(self@, texts) && r@ == #[trigger] rendered_items(texts) + "{}"@,
    {
        let mut out = String::new();
        let ghost mut texts: Seq<String> = Seq::empty();
        let mut cur: &LinkedList<T> = self;
        let ghost mut k: int = 0;
        loop
            invariant
                0 <= k < self@.len(),
                cur@ == self@.skip(k),
                display_texts(self@.take(k), texts),
                out@ == rendered_items(texts),
            decreases self@.len() - k,
        {
            proof {
                cur.lemma_unfold();
            }
            let t = cur.data.to_string();
            out.append("{ ");
            out.append(t.as_str());
            out.append(" } -> ");
            let ghost before = texts;
            proof {
                texts = texts.push(t);
                assert(texts.drop_last() =~= before);
                assert(self@.take(k + 1) =~= self@.take(k).push(cur.data));
            }
            match &cur.next {
                Some(nx) => {
                    assert(self@.skip(k + 1) =~= self@.skip(k).drop_first());
                    cur = &**nx;
                    proof {
                        k = k + 1;
                    }
                },
                None => {
                    assert(self@.take(k + 1) =~= self@);
                    out.append("{}");
                    assert(display_texts(self@, texts));
                    assert(out@ == rendered_items(texts) + "{}"@);
                    return out;
                },
            }
        }
    }
}

} // verus!
