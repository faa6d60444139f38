use vstd::arithmetic::div_mod::{lemma_div_is_ordered, lemma_div_multiples_vanish};
use vstd::prelude::*;

verus! {

/// Total and still-available space of one mounted disk, in bytes.
#[derive(Clone, Copy, Debug, PartialEq, Eq, Structural)]
pub struct DiskSpace {
    pub total: u64,
    pub available: u64,
}

/// A raw reading of the host, as plain numbers: processor load in
/// hundredths of a percent, memory and swap in bytes, the mounted disks,
/// the machine's names and its core count.
#[derive(Debug)]
pub struct HostSample {
    pub cpu_usage_hundredths: u64,
    pub total_memory: u64,
    pub used_memory: u64,
    pub total_swap: u64,
    pub used_swap: u64,
    pub system_name: String,
    pub hostname: String,
    pub total_cpus: u64,
    pub disks: Vec<DiskSpace>,
}

impl HostSample {
    /// A sensible reading: no disk reports more available than total space,
    /// and the disk list is small enough for exact arithmetic.
    pub open spec fn wf(self) -> bool {
        &&& forall|i: int| 0 <= i < self.disks@.len()
            ==> (#[trigger] self.disks@[i]).available <= self.disks@[i].total
        &&& self.disks@.len() <= 0x10000
    }
}

/// Host telemetry as the stats endpoint reports it: percentages in
/// hundredths of a percent, memory figures in whole megabytes.
#[derive(Debug)]
pub struct SystemStats {
    pub cpu_usage_hundredths: u64,
    pub total_memory: u64,
    pub used_memory: u64,
    pub total_swap: u64,
    pub used_swap: u64,
    pub system_name: String,
    pub hostname: String,
    pub total_cpus: u64,
    pub disk_usage_hundredths: u64,
    pub task_count: u64,
}

/// The combined size of the given disks, in bytes.
pub open spec fn sum_total(disks: Seq<DiskSpace>) -> int
    decreases disks.len(),
{
    if disks.len() == 0 {
        0
    } else {
        sum_total(disks.drop_last()) + disks.last().total
    }
}

/// The combined occupied space of the given disks, in bytes.
pub open spec fn sum_used(disks: Seq<DiskSpace>) -> int
    decreases disks.len(),
{
    if disks.len() == 0 {
        0
    } else {
        sum_used(disks.drop_last()) + (disks.last().total - disks.last().available)
    }
}

/// Occupied space across all disks as a share of their combined size, in
/// hundredths of a percent; zero when no space exists at all.
pub open spec fn spec_disk_usage(disks: Seq<DiskSpace>) -> int {
    if sum_total(disks) == 0 {
        0
    } else {
        sum_used(disks) * 10000 / sum_total(disks)
    }
}

/// Derives the reported statistics from a raw host reading: memory figures
/// become whole megabytes, the disk list collapses to the combined usage
/// share, and the task count is attached.
pub fn get_stats(sample: &HostSample, task_count: u64) -> (r: SystemStats)
    requires
        sample.wf(),
    ensures
        r.cpu_usage_hundredths == sample.cpu_usage_hundredths,
        r.total_memory == sample.total_memory / 1024 / 1024,
        r.used_memory == sample.used_memory / 1024 / 1024,
        r.total_swap == sample.total_swap / 1024 / 1024,
        r.used_swap == sample.used_swap / 1024 / 1024,
        r.system_name@ == sample.system_name@,
        r.hostname@ == sample.hostname@,
        r.total_cpus == sample.total_cpus,
        r.disk_usage_hundredths == spec_disk_usage(sample.disks@),
        r.task_count == task_count,
{
    let n = sample.disks.len();
    let mut i: usize = 0;
    let mut tot: u128 = 0;
    let mut used: u128 = 0;
    while i < n
        invariant
            n == sample.disks@.len(),
            sample.wf(),
            i <= n,
            tot == sum_total(sample.disks@.take(i as int)),
            used == sum_used(sample.disks@.take(i as int)),
            0 <= used <= tot,
            tot <= (i as int) * 0x10000000000000000,
        decreases n - i,
    {
        let d = sample.disks[i];
        let ghost pre = sample.disks@.take(i as int);
        proof {
            assert(sample.disks@.take(i + 1).drop_last() =~= pre);
            assert(sample.disks@.take(i + 1).last() == sample.disks@[i as int]);
        }
        tot = tot + (d.total as u128);
        used = used + ((d.total - d.available) as u128);
        i = i + 1;
    }
    proof {
        assert(sample.disks@.take(n as int) =~= sample.disks@);
    }
    let disk_usage: u64 = if tot == 0 {
        0
    } else {
        proof {
            lemma_div_is_ordered(used as int * 10000, tot as int * 10000, tot as int);
            lemma_div_multiples_vanish(10000, tot as int);
        }
        ((used * 10000) / tot) as u64
    };
    SystemStats {
        cpu_usage_hundredths: sample.cpu_usage_hundredths,
        total_memory: sample.total_memory / 1024 / 1024,
        used_memory: sample.used_memory / 1024 / 1024,
        total_swap: sample.total_swap / 1024 / 1024,
        used_swap: sample.used_swap / 1024 / 1024,
        system_name: sample.system_name.clone(),
        hostname: sample.hostname.clone(),
        total_cpus: sample.total_cpus,
        disk_usage_hundredths: disk_usage,
        task_count,
    }
}

/// The decimal digit `d` as a character.
pub open spec fn spec_digit(d: int) -> char {
    if d == 0 {
        '0'
    } else if d == 1 {
        '1'
    } else if d == 2 {
        '2'
    } else if d == 3 {
        '3'
    } else if d == 4 {
        '4'
    } else if d == 5 {
        '5'
    } else if d == 6 {
        '6'
    } else if d == 7 {
        '7'
    } else if d == 8 {
        '8'
    } else {
        '9'
    }
}

/// The decimal rendering of `n`, most significant digit first, without
/// leading zeroes (a single zero for zero itself).
pub open spec fn spec_dec(n: nat) -> Seq<char>
    decreases n,
{
    if n < 10 {
        seq![spec_digit(n as int)]
    } else {
        spec_dec(n / 10).push(spec_digit((n % 10) as int))
    }
}

fn digit_str(d: u64) -> (s: &'static str)
    requires
        d < 10,
    ensures
        s@ == seq![spec_digit(d as int)],
{
    match d {
        0 => {
            proof {
                reveal_strlit("0");
                assert("0"@ =~= seq![spec_digit(0)]);
            }
            "0"
        },
        1 => {
            proof {
                reveal_strlit("1");
                assert("1"@ =~= seq![spec_digit(1)]);
            }
            "1"
        },
        2 => {
            proof {
                reveal_strlit("2");
                assert("2"@ =~= seq![spec_digit(2)]);
            }
            "2"
        },
        3 => {
            proof {
                reveal_strlit("3");
                assert("3"@ =~= seq![spec_digit(3)]);
            }
            "3"
        },
        4 => {
            proof {
                reveal_strlit("4");
                assert("4"@ =~= seq![spec_digit(4)]);
            }
            "4"
        },
        5 => {
            proof {
                reveal_strlit("5");
                assert("5"@ =~= seq![spec_digit(5)]);
            }
            "5"
        },
        6 => {
            proof {
                reveal_strlit("6");
                assert("6"@ =~= seq![spec_digit(6)]);
            }
            "6"
        },
        7 => {
            proof {
                reveal_strlit("7");
                assert("7"@ =~= seq![spec_digit(7)]);
            }
            "7"
        },
        8 => {
            proof {
                reveal_strlit("8");
                assert("8"@ =~= seq![spec_digit(8)]);
            }
            "8"
        },
        _ => {
            proof {
                reveal_strlit("9");
                assert("9"@ =~= seq![spec_digit(9)]);
            }
            "9"
        },
    }
}

/// Renders `n` in decimal.
pub fn u64_to_dec(n: u64) -> (s: String)
    ensures
        s@ == spec_dec(n as nat),
    decreases n,
{
    if n < 10 {
        digit_str(n).to_owned()
    } else {
        let mut s = u64_to_dec(n / 10);
        s.append(digit_str(n % 10));
        proof {
            assert(s@ =~= spec_dec((n / 10) as nat).push(spec_digit((n % 10) as int)));
        }
        s
    }
}

/// A percentage given in hundredths, rendered with exactly two decimal
/// places and a percent sign, the way the stats endpoint reports shares.
pub open spec fn spec_percent(h: nat) -> Seq<char> {
    spec_dec(h / 100) + seq!['.', spec_digit(((h / 10) % 10) as int), spec_digit(
        (h % 10) as int,
    ), '%']
}

/// Renders `h` hundredths as a percentage: `750` becomes `7.50%`.
pub fn format_percent_hundredths(h: u64) -> (s: String)
    ensures
        s@ == spec_percent(h as nat),
{
    let mut s = u64_to_dec(h / 100);
    s.append(".");
    s.append(digit_str((h / 10) % 10));
    s.append(digit_str(h % 10));
    s.append("%");
    proof {
        reveal_strlit(".");
        reveal_strlit("%");
        assert(s@ =~= spec_percent(h as nat));
    }
    s
}

/// A byte-derived figure rendered as whole megabytes with the ` MB` suffix.
pub open spec fn spec_mb(n: nat) -> Seq<char> {
    spec_dec(n) + seq![' ', 'M', 'B']
}

/// Renders a megabyte figure: `42` becomes `42 MB`.
pub fn format_mb(n: u64) -> (s: String)
    ensures
        s@ == spec_mb(n as nat),
{
    let mut s = u64_to_dec(n);
    s.append(" MB");
    proof {
        reveal_strlit(" MB");
        assert(s@ =~= spec_mb(n as nat));
    }
    s
}

/// Whether `c` is a decimal digit.
pub open spec fn is_digit_char(c: char) -> bool {
    c == '0' || c == '1' || c == '2' || c == '3' || c == '4' || c == '5' || c == '6' || c == '7'
        || c == '8' || c == '9'
}

/// A decimal rendering is at least one character, all of them digits.
pub proof fn lemma_dec_all_digits(n: nat)
    ensures
        spec_dec(n).len() >= 1,
        forall|i: int| 0 <= i < spec_dec(n).len() ==> is_digit_char(#[trigger] spec_dec(n)[i]),
    decreases n,
{
    if n >= 10 {
        lemma_dec_all_digits(n / 10);
    }
}

/// The shape of every rendered percentage: one or more digits, a point,
/// exactly two digits, a percent sign.
pub proof fn lemma_percent_shape(h: nat)
    ensures
        spec_percent(h).len() >= 5,
        spec_percent(h).last() == '%',
        spec_percent(h)[spec_percent(h).len() - 4] == '.',
        spec_percent(h)[spec_percent(h).len() - 3] == spec_digit(((h / 10) % 10) as int),
        spec_percent(h)[spec_percent(h).len() - 2] == spec_digit((h % 10) as int),
        forall|i: int| 0 <= i < spec_percent(h).len() - 4
            ==> is_digit_char(#[trigger] spec_percent(h)[i]),
        is_digit_char(spec_percent(h)[spec_percent(h).len() - 3]),
        is_digit_char(spec_percent(h)[spec_percent(h).len() - 2]),
{
    lemma_dec_all_digits(h / 100);
    let d = spec_dec(h / 100);
    let s = spec_percent(h);
    assert(s.len() == d.len() + 4);
    assert(forall|i: int| 0 <= i < d.len() ==> s[i] == d[i]);
}

/// Every rendered megabyte figure ends in the ` MB` suffix, after at least
/// one digit.
pub proof fn lemma_mb_shape(n: nat)
    ensures
        spec_mb(n).len() >= 4,
        spec_mb(n)[spec_mb(n).len() - 3] == ' ',
        spec_mb(n)[spec_mb(n).len() - 2] == 'M',
        spec_mb(n).last() == 'B',
        forall|i: int| 0 <= i < spec_mb(n).len() - 3
            ==> is_digit_char(#[trigger] spec_mb(n)[i]),
{
    lemma_dec_all_digits(n);
    let d = spec_dec(n);
    let s = spec_mb(n);
    assert(s.len() == d.len() + 3);
    assert(forall|i: int| 0 <= i < d.len() ==> s[i] == d[i]);
}

} // verus!
