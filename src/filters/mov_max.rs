use vstd::prelude::*;
use std::cmp::Ordering;
use vstd::std_specs::cmp::PartialOrdSpec;
use std::collections::VecDeque;

verus! {

/// `a` orders strictly before `b`.
pub open spec fn lt<T: PartialOrd>(a: T, b: T) -> bool {
    a.partial_cmp_spec(&b) == Some(Ordering::Less)
}

/// `<` on `T` is a strict weak order: asymmetric, transitive, and its
/// complement is transitive too. Integers are such; floats are once NaN is
/// left out.
#[verifier::opaque]
pub open spec fn weak_order<T: PartialOrd>() -> bool {
    &&& T::obeys_partial_cmp_spec()
    &&& forall|a: T, b: T| #[trigger] lt(a, b) ==> !lt(b, a)
    &&& forall|a: T, b: T, c: T| #[trigger] lt(a, b) && #[trigger] lt(b, c) ==> lt(a, c)
    &&& forall|a: T, b: T, c: T| !#[trigger] lt(a, b) && !#[trigger] lt(b, c) ==> !lt(a, c)
}

proof fn lemma_cmp_obeyed<T: PartialOrd>()
    requires
        weak_order::<T>(),
    ensures
        T::obeys_partial_cmp_spec(),
{
    reveal(weak_order);
}

proof fn lemma_asym<T: PartialOrd>(a: T, b: T)
    requires
        weak_order::<T>(),
        lt(a, b),
    ensures
        !lt(b, a),
{
    reveal(weak_order);
}

proof fn lemma_trans<T: PartialOrd>(a: T, b: T, c: T)
    requires
        weak_order::<T>(),
        lt(a, b),
        lt(b, c),
    ensures
        lt(a, c),
{
    reveal(weak_order);
}

proof fn lemma_neg_trans<T: PartialOrd>(a: T, b: T, c: T)
    requires
        weak_order::<T>(),
        !lt(a, b),
        !lt(b, c),
    ensures
        !lt(a, c),
{
    reveal(weak_order);
}

/// Integer samples are weakly ordered, so for them `MovMax` yields the
/// exact sliding maximum.
pub proof fn lemma_integers_weak_order()
    ensures
        weak_order::<i64>(),
        weak_order::<i32>(),
        weak_order::<i16>(),
{
    reveal(weak_order);
}

/// The last `w` items of `h[..=i]` (fewer near the start).
pub open spec fn sliding_window<T>(h: Seq<T>, w: nat, i: int) -> Seq<T> {
    let start = if i + 1 >= w { i + 1 - w } else { 0 };
    h.subrange(start, i + 1)
}

/// `m` is the maximum of `s`: the earliest item of `s` that no item exceeds.
pub open spec fn is_max_of<T: PartialOrd>(s: Seq<T>, m: T) -> bool {
    exists|j: int|
        #![trigger s[j]]
        {
            &&& 0 <= j < s.len()
            &&& s[j] == m
            &&& forall|q: int| 0 <= q < s.len() ==> !lt(m, #[trigger] s[q])
            &&& forall|q: int| 0 <= q < j ==> lt(#[trigger] s[q], m)
        }
}

/// Maximum of a non-empty sequence: the running maximum, replaced only by
/// a strictly greater item.
pub open spec fn seq_max<T: PartialOrd>(s: Seq<T>) -> T
    decreases s.len(),
{
    if s.len() <= 1 {
        s[0]
    } else {
        let m = seq_max(s.drop_last());
        if lt(m, s.last()) { s.last() } else { m }
    }
}

/// A sequence has at most one maximum in the sense of `is_max_of`.
pub proof fn lemma_max_unique<T: PartialOrd>(s: Seq<T>, a: T, b: T)
    requires
        is_max_of(s, a),
        is_max_of(s, b),
    ensures
        a == b,
{
    let ja = choose|j: int|
        #![trigger s[j]]
        {
            &&& 0 <= j < s.len()
            &&& s[j] == a
            &&& forall|q: int| 0 <= q < s.len() ==> !lt(a, #[trigger] s[q])
            &&& forall|q: int| 0 <= q < j ==> lt(#[trigger] s[q], a)
        };
    let jb = choose|j: int|
        #![trigger s[j]]
        {
            &&& 0 <= j < s.len()
            &&& s[j] == b
            &&& forall|q: int| 0 <= q < s.len() ==> !lt(b, #[trigger] s[q])
            &&& forall|q: int| 0 <= q < j ==> lt(#[trigger] s[q], b)
        };
    if ja < jb {
        assert(lt(s[ja], b));
        assert(!lt(a, s[jb]));
    } else if jb < ja {
        assert(lt(s[jb], a));
        assert(!lt(b, s[ja]));
    }
}

/// Under a weak order, `seq_max` is the maximum of a non-empty sequence.
pub proof fn lemma_seq_max_is_max<T: PartialOrd>(s: Seq<T>)
    requires
        weak_order::<T>(),
        s.len() > 0,
    ensures
        is_max_of(s, seq_max(s)),
    decreases s.len(),
{
    if s.len() == 1 {
        assert(s[0] == seq_max(s));
        if lt(s[0], s[0]) {
            lemma_asym(s[0], s[0]);
        }
    } else {
        let t = s.drop_last();
        let x = s.last();
        let n = s.len() - 1;
        lemma_seq_max_is_max(t);
        let m = seq_max(t);
        let j = choose|j: int|
            #![trigger t[j]]
            {
                &&& 0 <= j < t.len()
                &&& t[j] == m
                &&& forall|q: int| 0 <= q < t.len() ==> !lt(m, #[trigger] t[q])
                &&& forall|q: int| 0 <= q < j ==> lt(#[trigger] t[q], m)
            };
        if lt(m, x) {
            assert forall|q: int| 0 <= q < s.len() implies !lt(x, #[trigger] s[q]) by {
                if q < n {
                    assert(s[q] == t[q]);
                    assert(!lt(m, t[q]));
                    if lt(x, s[q]) {
                        lemma_trans(m, x, s[q]);
                    }
                } else if lt(x, x) {
                    lemma_asym(x, x);
                }
            }
            assert forall|q: int| 0 <= q < n implies lt(#[trigger] s[q], x) by {
                assert(s[q] == t[q]);
                assert(!lt(m, t[q]));
                if !lt(s[q], x) {
                    lemma_neg_trans(m, s[q], x);
                }
            }
            assert(s[n] == x);
        } else {
            assert forall|q: int| 0 <= q < s.len() implies !lt(m, #[trigger] s[q]) by {
                if q < n {
                    assert(s[q] == t[q]);
                }
            }
            assert forall|q: int| 0 <= q < j implies lt(#[trigger] s[q], m) by {
                assert(s[q] == t[q]);
            }
            assert(s[j] == t[j]);
        }
    }
}

/// Index just before the span of history that candidate `j` stands for:
/// the previous candidate, or the sample before the window for the front.
spec fn span_before(s: int, p: Seq<int>, j: int) -> int {
    if j == 0 { s - 1 } else { p[j - 1] }
}

/// Candidate positions `p` are increasing, inside the window `h[s..n]`, and
/// end with the newest sample.
#[verifier::opaque]
spec fn positions_ok(s: int, n: int, p: Seq<int>) -> bool {
    &&& p.len() > 0 ==> p[p.len() - 1] == n - 1
    &&& forall|j: int| 0 <= j < p.len() ==> s <= #[trigger] p[j] < n
    &&& forall|i: int, j: int| 0 <= i < j < p.len() ==> #[trigger] p[i] < #[trigger] p[j]
}

/// Under a weak order, each candidate is exceeded by no sample after the
/// previous candidate, and exceeds every sample in its own span.
#[verifier::opaque]
spec fn candidates_ok<T: PartialOrd>(h: Seq<T>, s: int, p: Seq<int>) -> bool {
    &&& forall|j: int, q: int|
        #![trigger p[j], h[q]]
        0 <= j < p.len() && span_before(s, p, j) < q < h.len() ==> !lt(h[p[j]], h[q])
    &&& forall|j: int, q: int|
        #![trigger p[j], h[q]]
        0 <= j < p.len() && span_before(s, p, j) < q < p[j] ==> lt(h[q], h[p[j]])
}

/// Deque entries `m` hold the candidates' samples and span lengths.
#[verifier::opaque]
spec fn entries_ok<T>(m: Seq<(T, usize)>, h: Seq<T>, s: int, p: Seq<int>) -> bool {
    &&& m.len() == p.len()
    &&& forall|j: int| 0 <= j < m.len() ==> (#[trigger] m[j]).0 == h[p[j]]
    &&& forall|j: int| 0 <= j < m.len() ==> (#[trigger] m[j]).1 == p[j] - span_before(s, p, j)
}

/// Every sample after candidate `k - 1` is below `x`.
#[verifier::opaque]
spec fn tail_below<T: PartialOrd>(h: Seq<T>, s: int, p: Seq<int>, k: int, x: T) -> bool {
    forall|q: int| span_before(s, p, k) < q < h.len() ==> lt(#[trigger] h[q], x)
}

proof fn lemma_span_bounds(s: int, n: int, p: Seq<int>, j: int)
    requires
        positions_ok(s, n, p),
        s <= n,
        0 <= j <= p.len(),
    ensures
        s - 1 <= span_before(s, p, j) < n,
        j < p.len() ==> span_before(s, p, j) < p[j],
        j == p.len() && j > 0 ==> span_before(s, p, j) == n - 1,
{
    reveal(positions_ok);
    if j > 0 && j < p.len() {
        assert(p[j - 1] < p[j]);
    }
}

proof fn lemma_tail_start<T: PartialOrd>(h: Seq<T>, s: int, p: Seq<int>, x: T)
    requires
        positions_ok(s, h.len() as int, p),
        s <= h.len(),
        p.len() == 0 ==> s == h.len(),
    ensures
        tail_below(h, s, p, p.len() as int, x),
{
    reveal(tail_below);
    lemma_span_bounds(s, h.len() as int, p, p.len() as int);
}

proof fn lemma_pop_step<T: PartialOrd>(h: Seq<T>, s: int, p: Seq<int>, k: int, x: T)
    requires
        weak_order::<T>(),
        0 < k <= p.len(),
        positions_ok(s, h.len() as int, p),
        candidates_ok(h, s, p),
        tail_below(h, s, p, k, x),
        lt(h[p[k - 1]], x),
    ensures
        tail_below(h, s, p, k - 1, x),
{
    reveal(tail_below);
    reveal(candidates_ok);
    reveal(positions_ok);
    assert forall|q: int| span_before(s, p, k - 1) < q < h.len() implies lt(#[trigger] h[q], x) by {
        if q < p[k - 1] {
            assert(lt(h[q], h[p[k - 1]]));
            lemma_trans(h[q], h[p[k - 1]], x);
        }
    }
}

proof fn lemma_entries_push<T>(m: Seq<(T, usize)>, h: Seq<T>, s: int, p: Seq<int>, k: int, x: T, gap: usize)
    requires
        entries_ok(m, h, s, p),
        0 <= k <= p.len(),
        0 <= s <= h.len(),
        positions_ok(s, h.len() as int, p),
        gap == h.len() - span_before(s, p, k),
    ensures
        entries_ok(m.take(k).push((x, gap)), h.push(x), s, p.take(k).push(h.len() as int)),
{
    reveal(entries_ok);
    reveal(positions_ok);
    let m2 = m.take(k).push((x, gap));
    let p2 = p.take(k).push(h.len() as int);
    let h2 = h.push(x);
    assert forall|j: int| 0 <= j < m2.len() implies (#[trigger] m2[j]).0 == h2[p2[j]] by {
        if j < k {
            assert(m2[j] == m[j]);
            assert(p2[j] == p[j]);
            assert(s <= p[j] < h.len());
            assert(h2[p[j]] == h[p[j]]);
        }
    }
    assert forall|j: int| 0 <= j < m2.len() implies (#[trigger] m2[j]).1 == p2[j] - span_before(s, p2, j) by {
        if j < k {
            assert(m2[j] == m[j]);
            assert(p2[j] == p[j]);
            if j > 0 {
                assert(p2[j - 1] == p[j - 1]);
            }
        } else if j > 0 {
            assert(p2[j - 1] == p[j - 1]);
        }
    }
}

proof fn lemma_entries_evict<T>(m: Seq<(T, usize)>, h: Seq<T>, s: int, p: Seq<int>)
    requires
        entries_ok(m, h, s, p),
        positions_ok(s, h.len() as int, p),
        p.len() > 0,
    ensures
        m[0].1 >= 1,
        m[0].1 == 1 <==> p[0] == s,
        m[0].1 == 1 ==> entries_ok(m.drop_first(), h, s + 1, p.drop_first()),
        m[0].1 > 1 ==> entries_ok(m.drop_first().insert(0, (m[0].0, (m[0].1 - 1) as usize)), h, s + 1, p),
{
    reveal(entries_ok);
    reveal(positions_ok);
    assert(m[0].1 == p[0] - (s - 1));
    if p[0] == s {
        let m2 = m.drop_first();
        let p2 = p.drop_first();
        assert forall|j: int| 0 <= j < m2.len() implies (#[trigger] m2[j]).1 == p2[j] - span_before(s + 1, p2, j) by {
            assert(m2[j] == m[j + 1]);
        }
        assert forall|j: int| 0 <= j < m2.len() implies (#[trigger] m2[j]).0 == h[p2[j]] by {
            assert(m2[j] == m[j + 1]);
        }
    } else {
        let m2 = m.drop_first().insert(0, (m[0].0, (m[0].1 - 1) as usize));
        assert forall|j: int| 0 <= j < m2.len() implies (#[trigger] m2[j]).1 == p[j] - span_before(s + 1, p, j) by {
            if j > 0 {
                assert(m2[j] == m[j]);
            }
        }
        assert forall|j: int| 0 <= j < m2.len() implies (#[trigger] m2[j]).0 == h[p[j]] by {
            if j > 0 {
                assert(m2[j] == m[j]);
            }
        }
    }
}

proof fn lemma_push<T: PartialOrd>(h: Seq<T>, s: int, p: Seq<int>, k: int, x: T)
    requires
        weak_order::<T>(),
        0 <= s <= h.len(),
        0 <= k <= p.len(),
        positions_ok(s, h.len() as int, p),
        candidates_ok(h, s, p),
        tail_below(h, s, p, k, x),
        k > 0 ==> !lt(h[p[k - 1]], x),
    ensures
        positions_ok(s, (h.len() + 1) as int, p.take(k).push(h.len() as int)),
        candidates_ok(h.push(x), s, p.take(k).push(h.len() as int)),
{
    reveal(tail_below);
    reveal(candidates_ok);
    reveal(positions_ok);
    let n = h.len() as int;
    let h2 = h.push(x);
    let p2 = p.take(k).push(n);
    assert forall|j: int, q: int|
        #![trigger p2[j], h2[q]]
        0 <= j < p2.len() && span_before(s, p2, j) < q < h2.len() implies !lt(h2[p2[j]], h2[q]) by {
        if j < k {
            assert(p2[j] == p[j]);
            if q < n {
                assert(h2[q] == h[q]);
            } else {
                assert(!lt(h[p[j]], h[p[k - 1]]));
                lemma_neg_trans(h[p[j]], h[p[k - 1]], x);
            }
        } else if q < n {
            assert(lt(h[q], x));
            lemma_asym(h[q], x);
        } else if lt(x, x) {
            lemma_asym(x, x);
        }
    }
    assert forall|j: int, q: int|
        #![trigger p2[j], h2[q]]
        0 <= j < p2.len() && span_before(s, p2, j) < q < p2[j] implies lt(h2[q], h2[p2[j]]) by {
        if j < k {
            assert(p2[j] == p[j]);
            assert(h2[q] == h[q]);
        } else {
            assert(lt(h[q], x));
        }
    }
}

proof fn lemma_evict<T: PartialOrd>(h: Seq<T>, s: int, p: Seq<int>)
    requires
        0 <= s < h.len(),
        p.len() > 0,
        positions_ok(s, h.len() as int, p),
        candidates_ok(h, s, p),
    ensures
        p[0] == s ==> positions_ok(s + 1, h.len() as int, p.drop_first()),
        p[0] == s ==> candidates_ok(h, s + 1, p.drop_first()),
        p[0] != s ==> positions_ok(s + 1, h.len() as int, p),
        p[0] != s ==> candidates_ok(h, s + 1, p),
{
    reveal(candidates_ok);
    reveal(positions_ok);
    let p2 = p.drop_first();
    if p[0] == s {
        assert forall|j: int| 0 <= j < p2.len() implies s + 1 <= #[trigger] p2[j] by {
            assert(p[0] < p[j + 1]);
        }
        assert forall|i: int, j: int| 0 <= i < j < p2.len() implies #[trigger] p2[i] < #[trigger] p2[j] by {
            assert(p[i + 1] < p[j + 1]);
        }
        assert forall|j: int, q: int|
            #![trigger p2[j], h[q]]
            0 <= j < p2.len() && span_before(s + 1, p2, j) < q < h.len() implies !lt(h[p2[j]], h[q]) by {
            assert(p2[j] == p[j + 1]);
            assert(span_before(s + 1, p2, j) == span_before(s, p, j + 1));
        }
        assert forall|j: int, q: int|
            #![trigger p2[j], h[q]]
            0 <= j < p2.len() && span_before(s + 1, p2, j) < q < p2[j] implies lt(h[q], h[p2[j]]) by {
            assert(p2[j] == p[j + 1]);
            assert(span_before(s + 1, p2, j) == span_before(s, p, j + 1));
        }
    } else {
        assert forall|j: int| 0 <= j < p.len() implies s + 1 <= #[trigger] p[j] by {
            if j > 0 {
                assert(p[0] < p[j]);
            }
        }
    }
}

proof fn lemma_front_is_max<T: PartialOrd>(h: Seq<T>, s: int, p: Seq<int>)
    requires
        weak_order::<T>(),
        0 <= s <= h.len(),
        p.len() > 0,
        positions_ok(s, h.len() as int, p),
        candidates_ok(h, s, p),
    ensures
        is_max_of(h.subrange(s, h.len() as int), h[p[0]]),
{
    reveal(candidates_ok);
    reveal(positions_ok);
    let w = h.subrange(s, h.len() as int);
    let j = p[0] - s;
    assert(w[j] == h[p[0]]);
    assert forall|q: int| 0 <= q < w.len() implies !lt(h[p[0]], #[trigger] w[q]) by {
        assert(w[q] == h[s + q]);
    }
    assert forall|q: int| 0 <= q < j implies lt(#[trigger] w[q], h[p[0]]) by {
        assert(w[q] == h[s + q]);
    }
}

proof fn lemma_front_is_seq_max<T: PartialOrd>(h: Seq<T>, s: int, p: Seq<int>)
    requires
        weak_order::<T>(),
        0 <= s <= h.len(),
        p.len() > 0,
        positions_ok(s, h.len() as int, p),
        candidates_ok(h, s, p),
    ensures
        h[p[0]] == seq_max(h.subrange(s, h.len() as int)),
{
    let w = h.subrange(s, h.len() as int);
    lemma_front_is_max(h, s, p);
    assert(w.len() > 0) by {
        reveal(positions_ok);
    }
    lemma_seq_max_is_max(w);
    lemma_max_unique(w, h[p[0]], seq_max(w));
}

/// Exact sliding-window maximum.
///
/// Besides the number of samples in the window, only a deque of candidates
/// is kept: samples that no later sample in the window exceeds, in arrival
/// order, so the front is the maximum. Each candidate records how many
/// window samples it stands for (itself and the smaller ones that arrived
/// since the previous candidate), which tells when the sample leaving the
/// window is the front candidate.
pub struct MovMax<T> {
    window_length: usize,
    /// Samples currently inside the window.
    filled: usize,
    /// Candidates with the number of window samples each stands for.
    maxes: VecDeque<(T, usize)>,
    /// Output while the window is empty.
    empty: T,
    /// Every sample processed so far.
    history: Ghost<Seq<T>>,
    /// Position in `history` of each candidate.
    pos: Ghost<Seq<int>>,
}

impl<T: Copy + PartialOrd + Default> MovMax<T> {
    /// Samples processed so far, oldest first.
    pub closed spec fn inputs(&self) -> Seq<T> {
        self.history@
    }

    pub closed spec fn spec_window_length(&self) -> nat {
        self.window_length as nat
    }

    /// What `process` returns while the window is empty: `T::default()`,
    /// zero for numbers.
    pub closed spec fn empty_output(&self) -> T {
        self.empty
    }

    /// History index of the oldest sample inside the window.
    closed spec fn start(&self) -> int {
        let n = self.history@.len();
        if n >= self.window_length { n - self.window_length } else { 0 }
    }

    pub closed spec fn wf(&self) -> bool {
        let h = self.history@;
        let n = h.len() as int;
        let s = self.start();
        &&& self.window_length < usize::MAX
        &&& self.filled == n - s
        &&& (self.maxes@.len() == 0 <==> self.filled == 0)
        &&& positions_ok(s, n, self.pos@)
        &&& entries_ok(self.maxes@, h, s, self.pos@)
        &&& weak_order::<T>() ==> candidates_ok(h, s, self.pos@)
    }

    pub fn new(window_length: usize) -> (r: Self)
        requires
            window_length < usize::MAX,
        ensures
            r.wf(),
            r.inputs() == Seq::<T>::empty(),
            r.spec_window_length() == window_length,
            call_ensures(T::default, (), r.empty_output()),
    {
        let r = Self {
            window_length,
            filled: 0,
            maxes: VecDeque::with_capacity(window_length),
            empty: T::default(),
            history: Ghost(Seq::empty()),
            pos: Ghost(Seq::empty()),
        };
        proof {
            reveal(positions_ok);
            reveal(entries_ok);
            reveal(candidates_ok);
        }
        r
    }

    /// Pushes `input` into the window and returns the window's maximum.
    pub fn process(&mut self, input: T) -> (r: T)
        requires
            old(self).wf(),
        ensures
            final(self).wf(),
            final(self).inputs() == old(self).inputs().push(input),
            final(self).spec_window_length() == old(self).spec_window_length(),
            final(self).empty_output() == old(self).empty_output(),
            old(self).spec_window_length() == 0 ==> r == old(self).empty_output(),
            old(self).spec_window_length() > 0 && weak_order::<T>() ==> r == seq_max(
                sliding_window(
                    final(self).inputs(),
                    final(self).spec_window_length(),
                    old(self).inputs().len() as int,
                ),
            ),
    {
        let ghost h = self.history@;
        let ghost n = h.len() as int;
        let ghost p0 = self.pos@;
        let ghost m0 = self.maxes@;
        let ghost s = self.start();
        proof {
            reveal(entries_ok);
            assert(m0.take(m0.len() as int) =~= m0);
            lemma_tail_start(h, s, p0, input);
            lemma_span_bounds(s, n, p0, p0.len() as int);
        }
        // Candidates that the new sample exceeds can never be the maximum again.
        let mut gap: usize = 1;
        while self.maxes.len() > 0 && self.maxes[self.maxes.len() - 1].0 < input
            invariant
                self.window_length == old(self).window_length,
                self.filled == old(self).filled,
                self.empty == old(self).empty,
                self.history@ == h,
                n == h.len(),
                self.pos@ == p0,
                self.window_length < usize::MAX,
                self.filled == n - s,
                s == if n >= self.window_length { n - self.window_length } else { 0 },
                0 <= s <= n,
                positions_ok(s, n, p0),
                entries_ok(m0, h, s, p0),
                m0.len() == p0.len(),
                weak_order::<T>() ==> candidates_ok(h, s, p0),
                0 <= self.maxes@.len() <= m0.len(),
                self.maxes@ == m0.take(self.maxes@.len() as int),
                gap == n - span_before(s, p0, self.maxes@.len() as int),
                weak_order::<T>() ==> tail_below(h, s, p0, self.maxes@.len() as int, input),
            decreases self.maxes@.len(),
        {
            let ghost k = self.maxes@.len() as int;
            proof {
                reveal(entries_ok);
                assert(m0[k - 1].1 == p0[k - 1] - span_before(s, p0, k - 1));
                lemma_span_bounds(s, n, p0, k - 1);
                if weak_order::<T>() {
                    lemma_cmp_obeyed::<T>();
                    assert(m0[k - 1].0 == h[p0[k - 1]]);
                    lemma_pop_step(h, s, p0, k, input);
                }
            }
            let last = self.maxes.pop_back();
            if let Some((_, g)) = last {
                gap = gap + g;
            }
            proof {
                assert(self.maxes@ =~= m0.take(k - 1));
            }
        }
        let ghost k = self.maxes@.len() as int;
        proof {
            if weak_order::<T>() {
                lemma_cmp_obeyed::<T>();
                if k > 0 {
                    reveal(entries_ok);
                    assert(m0[k - 1].0 == h[p0[k - 1]]);
                    assert(!lt(h[p0[k - 1]], input));
                }
                lemma_push(h, s, p0, k, input);
            }
            reveal(positions_ok);
            lemma_entries_push(m0, h, s, p0, k, input, gap);
        }
        self.maxes.push_back((input, gap));
        proof {
            self.history@ = h.push(input);
            self.pos@ = p0.take(k).push(n);
            assert(self.maxes@ =~= m0.take(k).push((input, gap)));
        }
        if self.filled < self.window_length {
            self.filled = self.filled + 1;
        } else {
            // The oldest sample leaves: shrink the front candidate's span.
            let ghost m1 = self.maxes@;
            let ghost p1 = self.pos@;
            proof {
                if weak_order::<T>() {
                    lemma_evict(self.history@, s, p1);
                }
                lemma_entries_evict(m1, self.history@, s, p1);
            }
            let front = self.maxes.pop_front();
            if let Some((v, g)) = front {
                if g > 1 {
                    self.maxes.push_front((v, g - 1));
                } else {
                    proof {
                        self.pos@ = p1.drop_first();
                    }
                }
            }
        }
        if self.maxes.len() > 0 {
            proof {
                if weak_order::<T>() {
                    reveal(entries_ok);
                    lemma_front_is_seq_max(self.history@, self.start(), self.pos@);
                }
            }
            self.maxes[0].0
        } else {
            self.empty
        }
    }
}

} // verus!
