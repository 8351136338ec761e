//! Keyboard roving over a row of entries, some of which are disabled.
use vstd::prelude::*;

verus! {

/// Euclidean remainder of `a` by a positive `n`.
pub open spec fn wrap(a: int, n: int) -> int {
    a % n
}

/// Steps from `idx` by `dir` (wrapping around `disabled.len()`) at most `steps`
/// times and yields the first entry that is not disabled.
pub open spec fn scan_enabled(disabled: Seq<bool>, idx: int, dir: int, steps: nat) -> Option<int>
    decreases steps,
{
    if steps == 0 || disabled.len() == 0 {
        None
    } else {
        let next = wrap(idx + dir, disabled.len() as int);
        if !disabled[next] {
            Some(next)
        } else {
            scan_enabled(disabled, next, dir, (steps - 1) as nat)
        }
    }
}

/// Where a scan starts: the current entry, or just outside the row on the side
/// the scan comes from.
pub open spec fn scan_start(current: Option<usize>, direction: i32, len: nat) -> int {
    match current {
        Some(c) => (c as i32) as int,
        None => if direction >= 0 {
            -1
        } else {
            len as int
        },
    }
}

/// The index of the first entry that is not disabled.
pub open spec fn first_enabled(disabled: Seq<bool>) -> Option<int> {
    if exists|i: int| 0 <= i < disabled.len() && !disabled[i] {
        Some(choose|i: int| 0 <= i < disabled.len() && !disabled[i] && forall|j: int| 0 <= j < i ==> disabled[j])
    } else {
        None
    }
}

pub proof fn lemma_first_enabled(disabled: Seq<bool>, k: int)
    requires
        0 <= k < disabled.len(),
        !disabled[k],
        forall|j: int| 0 <= j < k ==> disabled[j],
    ensures
        first_enabled(disabled) == Some(k),
{
    let w = choose|i: int| 0 <= i < disabled.len() && !disabled[i] && forall|j: int| 0 <= j < i ==> disabled[j];
    assert(0 <= w < disabled.len() && !disabled[w] && forall|j: int| 0 <= j < w ==> disabled[j]);
    if w < k {
        assert(disabled[w]);
    }
    if k < w {
        assert(disabled[k]);
    }
}

/// The first entry that is not disabled.
pub fn first_enabled_position(disabled: &Vec<bool>) -> (r: Option<usize>)
    ensures
        match r {
            Some(i) => first_enabled(disabled@) == Some(i as int),
            None => first_enabled(disabled@) is None,
        },
{
    let mut i: usize = 0;
    while i < disabled.len()
        invariant
            0 <= i <= disabled@.len(),
            forall|j: int| 0 <= j < i ==> disabled@[j],
        decreases disabled.len() - i,
    {
        if !disabled[i] {
            proof {
                lemma_first_enabled(disabled@, i as int);
            }
            return Some(i);
        }
        i = i + 1;
    }
    None
}

/// Euclidean remainder for a positive divisor.
pub(crate) fn euclid_rem(t: i64, n: i64) -> (r: i64)
    requires
        0 < n <= i32::MAX,
        i32::MIN as int - i32::MAX as int <= t <= 2 * (i32::MAX as int),
    ensures
        r == wrap(t as int, n as int),
        0 <= r < n,
{
    if t >= 0 {
        let r = t % n;
        assert(r == wrap(t as int, n as int)) by (nonlinear_arith)
            requires
                t >= 0,
                n > 0,
                r == t % n,
        ;
        r
    } else {
        let q = (-t) % n;
        let r = if q == 0 {
            0
        } else {
            n - q
        };
        proof {
            let u = -t;
            vstd::arithmetic::div_mod::lemma_fundamental_div_mod(u as int, n as int);
            let k = u / (n as int);
            assert(u == n * k + q);
            if q == 0 {
                assert(t == (-k) * n + 0) by (nonlinear_arith)
                    requires
                        u == n * k + q,
                        q == 0,
                        u == -t,
                ;
                vstd::arithmetic::div_mod::lemma_fundamental_div_mod_converse(t as int, n as int, -k, 0);
            } else {
                assert(t == (-k - 1) * n + (n - q)) by (nonlinear_arith)
                    requires
                        u == n * k + q,
                        u == -t,
                ;
                vstd::arithmetic::div_mod::lemma_fundamental_div_mod_converse(t as int, n as int, -k - 1, n - q);
            }
        }
        r
    }
}

/// Moves from `current` in `direction` to the next entry that is not disabled,
/// wrapping around the row; `None` when every entry is disabled.
pub fn next_enabled(disabled: &Vec<bool>, current: Option<usize>, direction: i32) -> (r: Option<usize>)
    requires
        disabled@.len() <= i32::MAX,
        i32::MIN <= scan_start(current, direction, disabled@.len()) + direction <= i32::MAX,
        disabled@.len() - 1 + direction <= i32::MAX,
    ensures
        match r {
            Some(i) => scan_enabled(
                disabled@,
                scan_start(current, direction, disabled@.len()),
                direction as int,
                disabled@.len(),
            ) == Some(i as int),
            None => scan_enabled(
                disabled@,
                scan_start(current, direction, disabled@.len()),
                direction as int,
                disabled@.len(),
            ) is None,
        },
{
    if disabled.len() == 0 {
        return None;
    }
    let len = disabled.len() as i32;
    let mut index: i32 = match current {
        Some(c) => c as i32,
        None => if direction >= 0 {
            -1
        } else {
            len
        },
    };
    let ghost start = index as int;
    assert(start == scan_start(current, direction, disabled@.len()));
    let mut step: i32 = 0;
    while step < len
        invariant
            len == disabled@.len(),
            0 < len <= i32::MAX,
            0 <= step <= len,
            step == 0 ==> index == start,
            start == scan_start(current, direction, disabled@.len()),
            step > 0 ==> 0 <= index < len,
            i32::MIN <= start + direction <= i32::MAX,
            len - 1 + direction <= i32::MAX,
            scan_enabled(disabled@, start, direction as int, len as nat) == scan_enabled(
                disabled@,
                index as int,
                direction as int,
                (len - step) as nat,
            ),
        decreases len - step,
    {
        let t = index as i64 + direction as i64;
        let next = euclid_rem(t, len as i64) as i32;
        proof {
            assert(next as int == wrap(index as int + direction as int, len as int));
        }
        if !disabled[next as usize] {
            proof {
                assert(scan_enabled(disabled@, index as int, direction as int, (len - step) as nat)
                    == Some(next as int));
            }
            return Some(next as usize);
        }
        index = next;
        step = step + 1;
    }
    None
}

/// The active entry kept after the row changed: the current one while it is
/// still an enabled entry, otherwise the first enabled entry.
pub open spec fn resolved_active(disabled: Seq<bool>, current: Option<usize>) -> Option<int> {
    match current {
        Some(i) => if i < disabled.len() && !disabled[i as int] {
            Some(i as int)
        } else {
            first_enabled(disabled)
        },
        None => first_enabled(disabled),
    }
}

pub fn resolve_active(disabled: &Vec<bool>, current: Option<usize>) -> (r: Option<usize>)
    ensures
        match r {
            Some(i) => resolved_active(disabled@, current) == Some(i as int),
            None => resolved_active(disabled@, current) is None,
        },
{
    match current {
        Some(i) => {
            if i < disabled.len() && !disabled[i] {
                return Some(i);
            }
        },
        None => {},
    }
    first_enabled_position(disabled)
}

/// The entry reached by an arrow key: the next enabled entry in `direction`,
/// falling back to the first enabled entry; nothing for an empty row.
pub open spec fn moved_active(disabled: Seq<bool>, current: Option<usize>, direction: i32) -> Option<int> {
    if disabled.len() == 0 {
        None
    } else {
        match scan_enabled(disabled, scan_start(current, direction, disabled.len()), direction as int, disabled.len()) {
            Some(i) => Some(i),
            None => first_enabled(disabled),
        }
    }
}

pub fn move_active(disabled: &Vec<bool>, current: Option<usize>, direction: i32) -> (r: Option<usize>)
    requires
        disabled@.len() <= i32::MAX,
        i32::MIN <= scan_start(current, direction, disabled@.len()) + direction <= i32::MAX,
        disabled@.len() - 1 + direction <= i32::MAX,
    ensures
        match r {
            Some(i) => moved_active(disabled@, current, direction) == Some(i as int),
            None => moved_active(disabled@, current, direction) is None,
        },
{
    if disabled.len() == 0 {
        return None;
    }
    match next_enabled(disabled, current, direction) {
        Some(i) => Some(i),
        None => first_enabled_position(disabled),
    }
}

proof fn lemma_minimal_enabled(disabled: Seq<bool>, w: int)
    requires
        0 <= w < disabled.len(),
        !disabled[w],
    ensures
        exists|i: int| 0 <= i < disabled.len() && !disabled[i] && forall|j: int| 0 <= j < i ==> disabled[j],
    decreases w,
{
    if exists|j: int| 0 <= j < w && !disabled[j] {
        let j = choose|j: int| 0 <= j < w && !disabled[j];
        lemma_minimal_enabled(disabled, j);
    } else {
        assert(forall|j: int| 0 <= j < w ==> disabled[j]);
    }
}

pub proof fn lemma_first_enabled_bounds(disabled: Seq<bool>)
    ensures
        first_enabled(disabled) matches Some(i) ==> 0 <= i < disabled.len() && !disabled[i],
{
    if exists|i: int| 0 <= i < disabled.len() && !disabled[i] {
        let w = choose|i: int| 0 <= i < disabled.len() && !disabled[i];
        lemma_minimal_enabled(disabled, w);
    }
}

pub proof fn lemma_scan_enabled_bounds(disabled: Seq<bool>, idx: int, dir: int, steps: nat)
    ensures
        scan_enabled(disabled, idx, dir, steps) matches Some(i) ==> 0 <= i < disabled.len()
            && !disabled[i],
    decreases steps,
{
    if steps > 0 && disabled.len() > 0 {
        let next = wrap(idx + dir, disabled.len() as int);
        if disabled[next] {
            lemma_scan_enabled_bounds(disabled, next, dir, (steps - 1) as nat);
        }
    }
}

proof fn lemma_scan_misses(disabled: Seq<bool>, idx: int, dir: int, steps: nat, k: int)
    requires
        disabled.len() > 0,
        dir == 1 || dir == -1,
        1 <= k <= steps,
        scan_enabled(disabled, idx, dir, steps) is None,
    ensures
        disabled[wrap(
            idx + if dir == 1 {
                k
            } else {
                -k
            },
            disabled.len() as int,
        )],
    decreases steps,
{
    let n = disabled.len() as int;
    let next = wrap(idx + dir, n);
    if k > 1 {
        lemma_scan_misses(disabled, next, dir, (steps - 1) as nat, k - 1);
        let o = if dir == 1 {
            k - 1
        } else {
            -(k - 1)
        };
        vstd::arithmetic::div_mod::lemma_add_mod_noop_right(o, idx + dir, n);
    }
}

/// An arrow key (one step forward or back, wrapping around the row) reaches an
/// entry exactly when some entry is enabled, and the entry it reaches is an
/// enabled one, from any starting point.
pub proof fn lemma_arrow_reaches_enabled(disabled: Seq<bool>, idx: int, dir: int)
    requires
        dir == 1 || dir == -1,
    ensures
        scan_enabled(disabled, idx, dir, disabled.len()) is Some <==> exists|j: int|
            0 <= j < disabled.len() && !disabled[j],
        scan_enabled(disabled, idx, dir, disabled.len()) matches Some(i) ==> 0 <= i < disabled.len()
            && !disabled[i],
{
    lemma_scan_enabled_bounds(disabled, idx, dir, disabled.len());
    let n = disabled.len() as int;
    if (exists|j: int| 0 <= j < n && !disabled[j]) && scan_enabled(disabled, idx, dir, disabled.len()) is None {
        let j = choose|j: int| 0 <= j < n && !disabled[j];
        vstd::arithmetic::div_mod::lemma_small_mod(j as nat, n as nat);
        if dir == 1 {
            let k0 = (j - idx) % n;
            vstd::arithmetic::div_mod::lemma_add_mod_noop_right(idx, j - idx, n);
            if k0 == 0 {
                vstd::arithmetic::div_mod::lemma_mod_add_multiples_vanish(idx, n);
                lemma_scan_misses(disabled, idx, dir, disabled.len(), n);
            } else {
                lemma_scan_misses(disabled, idx, dir, disabled.len(), k0);
            }
        } else {
            let k0 = (idx - j) % n;
            vstd::arithmetic::div_mod::lemma_sub_mod_noop_right(idx, idx - j, n);
            if k0 == 0 {
                vstd::arithmetic::div_mod::lemma_mod_sub_multiples_vanish(idx, n);
                lemma_scan_misses(disabled, idx, dir, disabled.len(), n);
            } else {
                lemma_scan_misses(disabled, idx, dir, disabled.len(), k0);
            }
        }
    }
}

} // verus!
