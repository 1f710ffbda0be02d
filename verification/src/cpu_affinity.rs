//! The sets of CPUs that threads are bound to.

use vstd::prelude::*;

verus! {

/// The number of CPUs that an affinity mask can name.
pub const CPU_SETSIZE: usize = 1024;

/// The CPUs of the mask that pins a thread to one CPU.
pub fn pin_current_thread_to(cpu: usize) -> (r: Vec<usize>)
    requires
        cpu < CPU_SETSIZE,
    ensures
        r@ == seq![cpu],
{
    let mut r: Vec<usize> = Vec::new();
    r.push(cpu);
    r
}

/// The CPUs below `n` that are not excluded, in ascending order.
pub open spec fn allowed_below(n: nat, excluded: Seq<usize>) -> Seq<usize>
    decreases n,
{
    if n == 0 {
        Seq::empty()
    } else {
        let cpu = (n - 1) as usize;
        let below = allowed_below((n - 1) as nat, excluded);
        if excluded.contains(cpu) {
            below
        } else {
            below.push(cpu)
        }
    }
}

/// The CPUs of the mask that lets a thread run everywhere but on the excluded CPUs.
pub fn allow_all_but_current_thread(cpu_count: usize, excluded: &[usize]) -> (r: Vec<usize>)
    requires
        cpu_count <= CPU_SETSIZE,
    ensures
        r@ == allowed_below(cpu_count as nat, excluded@),
{
    let mut r: Vec<usize> = Vec::new();
    let mut cpu: usize = 0;
    while cpu < cpu_count
        invariant
            cpu <= cpu_count,
            r@ == allowed_below(cpu as nat, excluded@),
        decreases cpu_count - cpu,
    {
        let mut found = false;
        let mut i: usize = 0;
        while i < excluded.len()
            invariant
                i <= excluded@.len(),
                found <==> exists|j: int| 0 <= j < i && excluded@[j] == cpu,
            decreases excluded@.len() - i,
        {
            if excluded[i] == cpu {
                found = true;
            }
            i = i + 1;
        }
        if !found {
            r.push(cpu);
        }
        cpu = cpu + 1;
    }
    r
}

/// A CPU is allowed exactly when it exists and is not excluded.
pub proof fn law_allowed_cpus(n: nat, excluded: Seq<usize>, cpu: usize)
    requires
        n <= usize::MAX,
    ensures
        allowed_below(n, excluded).contains(cpu) <==> cpu < n && !excluded.contains(cpu),
    decreases n,
{
    if n > 0 {
        law_allowed_cpus((n - 1) as nat, excluded, cpu);
        let below = allowed_below((n - 1) as nat, excluded);
        let last = (n - 1) as usize;
        let s = below.push(last);
        assert(s[below.len() as int] == last);
        if below.contains(cpu) {
            let i = choose|i: int| 0 <= i < below.len() && below[i] == cpu;
            assert(s[i] == cpu);
        }
        if s.contains(cpu) && cpu != last {
            let i = choose|i: int| 0 <= i < s.len() && s[i] == cpu;
            assert(below[i] == cpu);
        }
    }
}

/// The allowed CPUs are in ascending order, each once.
pub proof fn law_allowed_cpus_ascend(n: nat, excluded: Seq<usize>)
    requires
        n <= usize::MAX,
    ensures
        forall|i: int, j: int|
            0 <= i < j < allowed_below(n, excluded).len() ==> #[trigger] allowed_below(n, excluded)[i]
                < #[trigger] allowed_below(n, excluded)[j],
    decreases n,
{
    if n > 0 {
        let below = allowed_below((n - 1) as nat, excluded);
        law_allowed_cpus_ascend((n - 1) as nat, excluded);
        assert forall|i: int| 0 <= i < below.len() implies #[trigger] below[i] < n - 1 by {
            law_allowed_cpus((n - 1) as nat, excluded, below[i]);
            assert(below.contains(below[i]));
        }
    }
}

} // verus!
