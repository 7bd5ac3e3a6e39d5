//! The correlation session: a deterministic counter of correlation keys, a
//! nested context that can be swapped for a derived one, and the registry
//! of pending fragments.
use vstd::prelude::*;
use vstd::string::StringExecFns;

verus! {

pub open spec fn digit_char(d: nat) -> char {
    if d == 0 {
        '0'
    } else if d == 1 {
        '1'
    } else if d == 2 {
        '2'
    } else if d == 3 {
        '3'
    } else if d == 4 {
        '4'
    } else if d == 5 {
        '5'
    } else if d == 6 {
        '6'
    } else if d == 7 {
        '7'
    } else if d == 8 {
        '8'
    } else {
        '9'
    }
}

/// The decimal digits of `n`, most significant first, with no leading zero.
pub open spec fn decimal(n: nat) -> Seq<char>
    decreases n,
{
    if n < 10 {
        seq![digit_char(n)]
    } else {
        decimal(n / 10) + seq![digit_char(n % 10)]
    }
}

/// Relies on `ToString` for `u64` (its `Display`): the decimal digits.
#[verifier::external_body]
pub(crate) fn decimal_string(n: u64) -> (r: String)
    ensures
        r@ == decimal(n as nat),
{
    n.to_string()
}

/// The successor of a counter, held at its largest value.
pub open spec fn bump(n: u64) -> u64 {
    if n < u64::MAX {
        (n + 1) as u64
    } else {
        n
    }
}

/// A namespace for nested correlation: keys drawn inside it are its
/// prefix followed by its own count, and a child namespace extends the
/// prefix with the child's ordinal and a `-`.
#[derive(Clone, Debug, PartialEq, Eq)]
pub struct HydrationContext {
    pub prefix: String,
    pub children: u64,
    pub count: u64,
}

/// The prefix of the next child namespace of `c`.
pub open spec fn child_prefix(c: HydrationContext) -> Seq<char> {
    c.prefix@ + decimal(c.children as nat) + seq!['-']
}

/// `child` is a fresh child namespace derived from `parent`.
pub open spec fn is_child_of(child: HydrationContext, parent: HydrationContext) -> bool {
    child.prefix@ == child_prefix(parent) && child.children == 0 && child.count == 0
}

impl HydrationContext {
    /// A top-level namespace with an empty prefix.
    pub fn new() -> (r: HydrationContext)
        ensures
            r.prefix@ == Seq::<char>::empty(),
            r.children == 0,
            r.count == 0,
    {
        HydrationContext { prefix: String::new(), children: 0, count: 0 }
    }

    /// Derives the next child namespace, counting it in `self`.
    pub fn next_hydration_context(&mut self) -> (r: HydrationContext)
        ensures
            is_child_of(r, *old(self)),
            *final(self) == (HydrationContext { children: bump(old(self).children), ..*old(self) }),
    {
        let mut prefix = self.prefix.clone();
        let ordinal = decimal_string(self.children);
        prefix.append(ordinal.as_str());
        proof {
            reveal_strlit("-");
        }
        prefix.append("-");
        assert(prefix@ =~= child_prefix(*old(self)));
        if self.children < u64::MAX {
            self.children = self.children + 1;
        }
        HydrationContext { prefix, children: 0, count: 0 }
    }
}

/// A unit of output that waits on asynchronous results, registered under a
/// caller-chosen key; `resolver` names the callback that produces it.
#[derive(Clone, Debug, PartialEq, Eq)]
pub struct PendingFragment {
    pub key: String,
    pub resolver: u64,
}

/// Index of the first fragment registered under `key`, or -1.
pub open spec fn fragment_index(s: Seq<PendingFragment>, key: Seq<char>) -> int
    decreases s.len(),
{
    if s.len() == 0 {
        -1
    } else if fragment_index(s.drop_last(), key) >= 0 {
        fragment_index(s.drop_last(), key)
    } else if s.last().key@ == key {
        s.len() - 1
    } else {
        -1
    }
}

/// The registry after registering `f`: an entry with the same key is
/// replaced in place, otherwise `f` is appended.
pub open spec fn fragments_insert(s: Seq<PendingFragment>, f: PendingFragment) -> Seq<
    PendingFragment,
> {
    let i = fragment_index(s, f.key@);
    if i >= 0 {
        s.update(i, f)
    } else {
        s.push(f)
    }
}

/// Once a key is found in a prefix, longer prefixes find it at the same index.
proof fn lemma_fragment_index_prefix(s: Seq<PendingFragment>, key: Seq<char>, i: int, j: int)
    requires
        0 <= i <= j <= s.len(),
        fragment_index(s.take(i), key) >= 0,
    ensures
        fragment_index(s.take(j), key) == fragment_index(s.take(i), key),
    decreases j - i,
{
    if j > i {
        lemma_fragment_index_prefix(s, key, i, j - 1);
        assert(s.take(j).drop_last() =~= s.take(j - 1));
    }
}

/// The key that session `sc` hands out next.
pub open spec fn session_key(sc: SharedContext) -> Seq<char> {
    match sc.context {
        Some(c) => c.prefix@ + decimal(c.count as nat),
        None => decimal(sc.id as nat),
    }
}

/// Session `sc` once a key was drawn from it.
pub open spec fn advanced(sc: SharedContext) -> SharedContext {
    match sc.context {
        Some(c) => SharedContext {
            context: Some(HydrationContext { count: bump(c.count), ..c }),
            ..sc
        },
        None => SharedContext { id: bump(sc.id), ..sc },
    }
}

/// The key of the fragment opened at ordinal `n`: `n` in decimal, then `f`.
pub(crate) fn fragment_key(n: u64) -> (r: String)
    ensures
        r@ == decimal(n as nat) + seq!['f'],
{
    let mut r = decimal_string(n);
    proof {
        reveal_strlit("f");
    }
    r.append("f");
    assert(r@ =~= decimal(n as nat) + seq!['f']);
    r
}

/// One correlation session.
pub struct SharedContext {
    pub id: u64,
    pub context: Option<HydrationContext>,
    pub pending_fragments: Vec<PendingFragment>,
}

impl SharedContext {
    /// A session whose first key is `"0"`, with no context and nothing pending.
    pub fn new() -> (r: SharedContext)
        ensures
            r.id == 0,
            r.context.is_none(),
            r.pending_fragments@ == Seq::<PendingFragment>::empty(),
    {
        SharedContext { id: 0, context: None, pending_fragments: Vec::new() }
    }

    /// The next correlation key: inside a namespace, its prefix and its
    /// count, counting the key there; otherwise the session's ordinal in
    /// decimal, counting it in the session.
    pub fn next_hydration_key(&mut self) -> (r: String)
        ensures
            r@ == session_key(*old(self)),
            *final(self) == advanced(*old(self)),
    {
        let mut co: Option<HydrationContext> = None;
        std::mem::swap(&mut self.context, &mut co);
        match co {
            Some(mut c) => {
                let mut r = c.prefix.clone();
                let n = decimal_string(c.count);
                r.append(n.as_str());
                if c.count < u64::MAX {
                    c.count = c.count + 1;
                }
                self.context = Some(c);
                r
            },
            None => {
                let r = decimal_string(self.id);
                if self.id < u64::MAX {
                    self.id = self.id + 1;
                }
                r
            },
        }
    }

    /// The key of the fragment that the next correlation key would open.
    pub fn current_fragment_key(&self) -> (r: String)
        ensures
            r@ == decimal(self.id as nat) + seq!['f'],
    {
        fragment_key(self.id)
    }
}

impl SharedContext {
    /// Registers fragment `f`: an entry with the same key is replaced in
    /// place, otherwise `f` is appended.
    pub fn insert_fragment(&mut self, f: PendingFragment)
        ensures
            final(self).pending_fragments@ == fragments_insert(old(self).pending_fragments@, f),
            final(self).id == old(self).id,
            final(self).context == old(self).context,
    {
        let ghost s = self.pending_fragments@;
        let n = self.pending_fragments.len();
        let mut i: usize = 0;
        while i < n
            invariant
                n == s.len(),
                i <= n,
                self.pending_fragments@ == s,
                self.id == old(self).id,
                self.context == old(self).context,
                s == old(self).pending_fragments@,
                fragment_index(s.take(i as int), f.key@) == -1,
            decreases n - i,
        {
            assert(s.take(i as int + 1).drop_last() =~= s.take(i as int));
            if self.pending_fragments[i].key == f.key {
                proof {
                    lemma_fragment_index_prefix(s, f.key@, i as int + 1, n as int);
                    assert(s.take(n as int) =~= s);
                }
                self.pending_fragments.set(i, f);
                return;
            }
            i = i + 1;
        }
        assert(s.take(n as int) =~= s);
        self.pending_fragments.push(f);
    }
}

/// What the marker walk needs to know of a sibling node: a comment `#`
/// opens a marked range, a comment `/` closes one, anything else is plain.
#[derive(Copy, Clone, Debug, PartialEq, Eq, Structural)]
pub enum NodeMark {
    Open,
    Close,
    Plain,
}

pub open spec fn mark_delta(m: NodeMark) -> int {
    match m {
        NodeMark::Open => 1,
        NodeMark::Close => -1,
        NodeMark::Plain => 0,
    }
}

/// Opened minus closed markers among the first `n` nodes.
pub open spec fn mark_depth(marks: Seq<NodeMark>, n: int) -> int
    decreases n,
{
    if n <= 0 {
        0
    } else {
        mark_depth(marks, n - 1) + mark_delta(marks[n - 1])
    }
}

/// Node `i` is a closing marker that brings the depth back to zero.
pub open spec fn closes_at(marks: Seq<NodeMark>, i: int) -> bool {
    marks[i] == NodeMark::Close && mark_depth(marks, i + 1) == 0
}

/// Walks the siblings `marks`, starting at the first, to the closing marker
/// that balances the markers before it. Returns the index of the last node
/// visited and how many nodes were collected: up to and including that
/// marker, or all of them when none balances.
pub fn marker_span(marks: &Vec<NodeMark>) -> (r: (usize, usize))
    requires
        0 < marks@.len() <= i64::MAX,
    ensures
        ({
            let (end, taken) = r;
            ||| (end < marks@.len() && closes_at(marks@, end as int) && taken == end + 1
                && forall|j: int| 0 <= j < end ==> !closes_at(marks@, j))
            ||| (end == marks@.len() - 1 && taken == marks@.len() && forall|j: int|
                0 <= j < marks@.len() ==> !closes_at(marks@, j))
        }),
{
    let mut count: i64 = 0;
    let mut i: usize = 0;
    while i < marks.len()
        invariant
            0 < marks@.len() <= i64::MAX,
            i <= marks@.len(),
            count == mark_depth(marks@, i as int),
            -(i as int) <= count <= i as int,
            forall|j: int| 0 <= j < i ==> !closes_at(marks@, j),
        decreases marks.len() - i,
    {
        match marks[i] {
            NodeMark::Open => {
                count = count + 1;
            },
            NodeMark::Close => {
                count = count - 1;
                if count == 0 {
                    return (i, i + 1);
                }
            },
            NodeMark::Plain => {},
        }
        i = i + 1;
    }
    (marks.len() - 1, marks.len())
}

} // verus!
