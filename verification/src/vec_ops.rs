use vstd::prelude::*;

verus! {

/// Whether adding `n` to each element of `s` stays within `i32`.
pub open spec fn fits_plus(s: Seq<i32>, n: i32) -> bool {
    forall|i: int| 0 <= i < s.len() ==> i32::MIN <= #[trigger] s[i] + n <= i32::MAX
}

/// Each element of `s` increased by `n`.
pub open spec fn plus_each(s: Seq<i32>, n: i32) -> Seq<i32> {
    Seq::new(s.len(), |i: int| (s[i] + n) as i32)
}

/// Adding `a` to each element and then `b` is adding `a + b` once.
pub proof fn plus_each_composes(s: Seq<i32>, a: i32, b: i32)
    requires
        fits_plus(s, a),
        fits_plus(plus_each(s, a), b),
        i32::MIN <= a + b <= i32::MAX,
    ensures
        fits_plus(s, (a + b) as i32),
        plus_each(plus_each(s, a), b) == plus_each(s, (a + b) as i32),
{
    assert forall|i: int| 0 <= i < s.len() implies i32::MIN <= #[trigger] s[i] + ((a + b) as i32) <= i32::MAX by {
        assert(plus_each(s, a)[i] + b == s[i] + a + b);
    }
    assert(plus_each(plus_each(s, a), b) =~= plus_each(s, (a + b) as i32));
}

/// Each element grows by exactly `n`, and the length is kept.
pub proof fn plus_each_adds(s: Seq<i32>, n: i32)
    requires
        fits_plus(s, n),
    ensures
        plus_each(s, n).len() == s.len(),
        forall|i: int| 0 <= i < s.len() ==> #[trigger] plus_each(s, n)[i] - s[i] == n,
{
    assert forall|i: int| 0 <= i < s.len() implies #[trigger] plus_each(s, n)[i] - s[i] == n by {
        assert(i32::MIN <= s[i] + n <= i32::MAX);
    }
}

/// Reversing twice gives back the original order.
pub proof fn reverse_twice_restores<T>(s: Seq<T>)
    ensures
        s.reverse().reverse() == s,
{
    assert(s.reverse().reverse() =~= s);
}

/// Returns a new vector holding each element of `v` increased by `n`.
pub fn add_n(v: Vec<i32>, n: i32) -> (res: Vec<i32>)
    requires
        fits_plus(v@, n),
    ensures
        res@ == plus_each(v@, n),
{
    let mut res: Vec<i32> = Vec::new();
    for k in 0..v.len()
        invariant
            res.len() == k,
            forall|i: int| 0 <= i < v.len() ==> i32::MIN <= #[trigger] v[i] + n <= i32::MAX,
            forall|i: int| 0 <= i < k ==> #[trigger] res[i] == v[i] + n,
    {
        res.push(v[k] + n);
    }
    assert(res@ =~= plus_each(v@, n));
    res
}

/// Increases each element of `v` by `n`, in place.
pub fn add_n_inplace(v: &mut Vec<i32>, n: i32)
    requires
        fits_plus(old(v)@, n),
    ensures
        final(v)@ == plus_each(old(v)@, n),
{
    let ghost v0 = v@;
    let len = v.len();
    let mut k: usize = 0;
    while k < len
        invariant
            len == v0.len(),
            k <= len,
            v.len() == v0.len(),
            forall|i: int| 0 <= i < v0.len() ==> i32::MIN <= #[trigger] v0[i] + n <= i32::MAX,
            forall|i: int| 0 <= i < k ==> #[trigger] v[i] == v0[i] + n,
            forall|i: int| k <= i < v0.len() ==> #[trigger] v[i] == v0[i],
        decreases len - k,
    {
        let x = v[k] + n;
        v.set(k, x);
        k = k + 1;
    }
    assert(v@ =~= plus_each(v0, n));
}

/// Reverses `v` in place by cloning the elements of each mirrored pair into
/// each other's place; an odd middle element is left as it is.
pub fn reverse_clone<T: Clone>(v: &mut Vec<T>)
    ensures
        final(v).len() == old(v).len(),
        forall|j: int|
            0 <= j < old(v).len() && 2 * j + 1 != old(v).len() ==> cloned::<T>(
                old(v)[old(v).len() - 1 - j],
                #[trigger] final(v)[j],
            ),
        forall|j: int| 0 <= j < old(v).len() && 2 * j + 1 == old(v).len() ==> #[trigger] final(v)[j] == old(v)[j],
{
    let ghost v0 = v@;
    let n = v.len();
    for i in 0..n / 2
        invariant
            n == v.len(),
            n == v0.len(),
            forall|j: int| 0 <= j < i ==> cloned::<T>(v0[n - 1 - j], #[trigger] v[j]),
            forall|j: int| 0 <= j < i ==> cloned::<T>(v0[j], #[trigger] v[n - 1 - j]),
            forall|j: int| i <= j < n - i ==> #[trigger] v[j] == v0[j],
    {
        let x: T = v[i].clone();
        let y: T = v[n - i - 1].clone();
        v.set(i, y);
        v.set(n - i - 1, x);
    }
    assert forall|j: int|
        0 <= j < n && 2 * j + 1 != n implies cloned::<T>(v0[n - 1 - j], #[trigger] v[j]) by {
        if j >= n / 2 {
            let k = n - 1 - j;
            assert(0 <= k < n / 2);
            assert(cloned::<T>(v0[k], v[n - 1 - k]));
        }
    }
}

/// Swaps two elements of a vector.
///
/// Calls `<[T]>::swap`, which std documents as exchanging the elements at the
/// two positions (leaving the slice as it is when they are equal) and as
/// panicking when either is out of bounds; this contract states exactly that.
#[verifier::external_body]
fn swap_elements<T>(v: &mut Vec<T>, a: usize, b: usize)
    requires
        a < old(v).len(),
        b < old(v).len(),
    ensures
        final(v)@ == old(v)@.update(a as int, old(v)@[b as int]).update(b as int, old(v)@[a as int]),
{
    v.swap(a, b);
}

/// Reverses `v` in place.
pub fn reverse<T>(v: &mut Vec<T>)
    ensures
        final(v)@ == old(v)@.reverse(),
{
    let ghost v0 = v@;
    let n = v.len();
    for i in 0..n / 2
        invariant
            n == v.len(),
            n == v0.len(),
            forall|j: int| 0 <= j < i ==> #[trigger] v[j] == v0[n - 1 - j],
            forall|j: int| 0 <= j < i ==> #[trigger] v[n - 1 - j] == v0[j],
            forall|j: int| i <= j < n - i ==> #[trigger] v[j] == v0[j],
    {
        swap_elements(v, i, n - i - 1);
    }
    assert(v@ =~= v0.reverse()) by {
        assert forall|j: int| 0 <= j < n implies #[trigger] v@[j] == v0.reverse()[j] by {
            if j >= n / 2 {
                let k = n - 1 - j;
                if k < n / 2 {
                    assert(v[n - 1 - k] == v0[k]);
                }
            }
        }
    }
}

} // verus!
