//! The run's options as plain values, the pacing selector parsed from the
//! hidden test-mode string, and the exclusion test over the option set.

use vstd::prelude::*;
use crate::exclude::{is_excluded, spec_excluded};

verus! {

/// The pacing policy applied uniformly to every file transfer of a run.
#[derive(Clone, Copy, Debug, PartialEq, Eq, Structural)]
pub enum TestMode {
    /// Suspend for this many milliseconds after every buffer flush.
    Delay(u64),
    /// Throttle to this many bytes per second.
    SpeedLimit(u64),
    /// No delay at all.
    Unthrottled,
}

/// The options of one copy run, handed in as plain values.
#[derive(Clone, Debug)]
pub struct Cli {
    /// Source file or directory.
    pub source: String,
    /// Destination file or directory.
    pub destination: String,
    /// Recursively copy directories.
    pub recursive: bool,
    /// Preserve permission bits and timestamps.
    pub preserve: bool,
    /// Detect overwrites and ask for confirmation before any write.
    pub force: bool,
    /// Exclude paths that contain one of these patterns.
    pub exclude: Option<Vec<String>>,
    /// Hidden pacing selector, `delay:<ms>` or `speed_limit:<bps>`.
    pub test_mode: Option<String>,
}

/// `c` is a decimal digit.
pub open spec fn is_digit(c: char) -> bool {
    48 <= c as u32 <= 57
}

/// The numeric value of a digit sequence, most significant first.
pub open spec fn digits_val(d: Seq<char>) -> int
    decreases d.len(),
{
    if d.len() == 0 {
        0
    } else {
        digits_val(d.drop_last()) * 10 + (d.last() as u32 - 48)
    }
}

/// `s` without its optional leading plus sign.
pub open spec fn unsigned_part(s: Seq<char>) -> Seq<char> {
    if s.len() > 0 && s[0] == '+' {
        s.subrange(1, s.len() as int)
    } else {
        s
    }
}

/// Every character of `d` is a decimal digit.
pub open spec fn all_digits(d: Seq<char>) -> bool {
    forall|i: int| 0 <= i < d.len() ==> is_digit(#[trigger] d[i])
}

/// What `str::parse::<u64>` accepts: an optional leading plus sign, then
/// one or more digits, denoting a value that fits in a `u64`.
pub open spec fn spec_parse_u64(s: Seq<char>) -> Option<u64> {
    if unsigned_part(s).len() == 0 {
        None
    } else if !all_digits(unsigned_part(s)) {
        None
    } else if digits_val(unsigned_part(s)) > u64::MAX {
        None
    } else {
        Some(digits_val(unsigned_part(s)) as u64)
    }
}

proof fn lemma_digits_val_nonneg(d: Seq<char>)
    requires
        forall|i: int| 0 <= i < d.len() ==> is_digit(#[trigger] d[i]),
    ensures
        digits_val(d) >= 0,
    decreases d.len(),
{
    if d.len() > 0 {
        lemma_digits_val_nonneg(d.drop_last());
    }
}

proof fn lemma_digits_val_prefix_le(d: Seq<char>, k: int)
    requires
        0 <= k <= d.len(),
        forall|i: int| 0 <= i < d.len() ==> is_digit(#[trigger] d[i]),
    ensures
        digits_val(d.subrange(0, k)) <= digits_val(d),
    decreases d.len() - k,
{
    if k == d.len() {
        assert(d.subrange(0, k) =~= d);
    } else {
        lemma_digits_val_prefix_le(d, k + 1);
        let p = d.subrange(0, k + 1);
        assert(p.drop_last() =~= d.subrange(0, k));
        lemma_digits_val_nonneg(d.subrange(0, k));
        assert(digits_val(d.subrange(0, k)) <= digits_val(p));
    }
}

/// Parses a decimal `u64` as `str::parse` does.
fn parse_u64(s: &str) -> (r: Option<u64>)
    ensures
        r == spec_parse_u64(s@),
{
    let n = s.unicode_len();
    let start: usize = if n > 0 && s.get_char(0) == '+' {
        1
    } else {
        0
    };
    let ghost d = unsigned_part(s@);
    if start == n {
        return None;
    }
    let mut val: u64 = 0;
    let mut j: usize = start;
    while j < n
        invariant
            start <= j <= n,
            n == s@.len(),
            start == 0 || start == 1,
            start == 1 ==> s@.len() > 0 && s@[0] == '+',
            start == 0 ==> !(s@.len() > 0 && s@[0] == '+'),
            d == unsigned_part(s@),
            d.len() == n - start,
            forall|i: int| 0 <= i < d.len() ==> d[i] == s@[i + start],
            forall|i: int| 0 <= i < j - start ==> is_digit(#[trigger] d[i]),
            val == digits_val(d.subrange(0, j - start)),
        decreases n - j,
    {
        let c = s.get_char(j);
        let cv = c as u32;
        if cv < 48 || cv > 57 {
            proof {
                let w = j - start;
                assert(d[w] == s@[j as int]);
                assert(!is_digit(d[w]));
                assert(!all_digits(d));
            }
            return None;
        }
        let dig: u64 = (cv - 48) as u64;
        proof {
            assert(d.subrange(0, j - start + 1).drop_last() =~= d.subrange(0, j - start));
        }
        if val > (u64::MAX - dig) / 10 {
            proof {
                let p = d.subrange(0, j - start + 1);
                assert(p.last() == d[j - start]);
                assert(d[j - start] == s@[j as int]);
                assert(digits_val(p) == val * 10 + dig);
                assert(val * 10 + dig > u64::MAX) by (nonlinear_arith)
                    requires
                        val > (u64::MAX - dig) / 10,
                        0 <= dig <= 9,
                {}
                if all_digits(d) {
                    lemma_digits_val_prefix_le(d, j - start + 1);
                    assert(digits_val(d) > u64::MAX);
                }
            }
            return None;
        }
        val = val * 10 + dig;
        j += 1;
    }
    proof {
        assert(d.subrange(0, d.len() as int) =~= d);
        lemma_digits_val_nonneg(d);
    }
    Some(val)
}

/// The keyword that selects the fixed-delay pacing mode.
pub open spec fn delay_keyword() -> Seq<char> {
    seq!['d', 'e', 'l', 'a', 'y']
}

/// The keyword that selects the rate-limited pacing mode.
pub open spec fn speed_limit_keyword() -> Seq<char> {
    seq!['s', 'p', 'e', 'e', 'd', '_', 'l', 'i', 'm', 'i', 't']
}

/// The index of the first `:` in `s`, or `s.len()` when it has none.
pub open spec fn first_colon(s: Seq<char>) -> int
    decreases s.len(),
{
    if s.len() == 0 {
        0
    } else if s[0] == ':' {
        0
    } else {
        1 + first_colon(s.subrange(1, s.len() as int))
    }
}

proof fn lemma_first_colon(s: Seq<char>, i: int)
    requires
        0 <= i <= s.len(),
        forall|t: int| 0 <= t < i ==> s[t] != ':',
        i == s.len() || s[i] == ':',
    ensures
        first_colon(s) == i,
    decreases s.len(),
{
    if s.len() == 0 {
    } else if s[0] == ':' {
    } else {
        let s1 = s.subrange(1, s.len() as int);
        lemma_first_colon(s1, i - 1);
    }
}

/// The pacing mode denoted by an optional `<keyword>:<number>` string:
/// exactly one colon, a known keyword before it, and a `u64` after it;
/// anything else means no throttling.
pub open spec fn spec_test_mode(tm: Option<Seq<char>>) -> TestMode {
    match tm {
        None => TestMode::Unthrottled,
        Some(s) => {
            let i = first_colon(s);
            if i < s.len() && (forall|j: int| i < j < s.len() ==> s[j] != ':') {
                let head = s.subrange(0, i);
                let tail = s.subrange(i + 1, s.len() as int);
                if head == delay_keyword() {
                    match spec_parse_u64(tail) {
                        Some(v) => TestMode::Delay(v),
                        None => TestMode::Unthrottled,
                    }
                } else if head == speed_limit_keyword() {
                    match spec_parse_u64(tail) {
                        Some(v) => TestMode::SpeedLimit(v),
                        None => TestMode::Unthrottled,
                    }
                } else {
                    TestMode::Unthrottled
                }
            } else {
                TestMode::Unthrottled
            }
        },
    }
}

/// The pacing mode a `Cli` value selects.
pub open spec fn spec_cli_test_mode(cli: &Cli) -> TestMode {
    match cli.test_mode {
        None => spec_test_mode(None),
        Some(ref s) => spec_test_mode(Some(s@)),
    }
}

/// The patterns a `Cli` value excludes by (none when the flag is absent).
pub open spec fn spec_cli_patterns(cli: &Cli) -> Seq<Seq<char>> {
    match cli.exclude {
        None => Seq::empty(),
        Some(ref pats) => pats.deep_view(),
    }
}

/// `str::eq` over character sequences.
fn str_eq(a: &str, b: &str) -> (r: bool)
    ensures
        r == (a@ == b@),
{
    let an = a.unicode_len();
    let bn = b.unicode_len();
    if an != bn {
        return false;
    }
    let mut i: usize = 0;
    while i < an
        invariant
            an == a@.len(),
            bn == b@.len(),
            an == bn,
            i <= an,
            forall|t: int| 0 <= t < i ==> a@[t] == b@[t],
        decreases an - i,
    {
        if a.get_char(i) != b.get_char(i) {
            return false;
        }
        i += 1;
    }
    proof {
        assert(a@ =~= b@);
    }
    true
}

impl Cli {
    /// Reads the pacing mode out of the hidden test-mode option.
    pub fn get_test_mode(&self) -> (r: TestMode)
        ensures
            r == spec_cli_test_mode(self),
    {
        let s: &String = match &self.test_mode {
            Some(s) => s,
            None => {
                return TestMode::Unthrottled;
            },
        };
        let n = s.as_str().unicode_len();
        let mut i: usize = 0;
        while i < n && s.as_str().get_char(i) != ':'
            invariant
                n == s@.len(),
                i <= n,
                forall|t: int| 0 <= t < i ==> s@[t] != ':',
            decreases n - i,
        {
            i += 1;
        }
        proof {
            lemma_first_colon(s@, i as int);
        }
        if i == n {
            return TestMode::Unthrottled;
        }
        // Any second colon disqualifies the string.
        let mut j: usize = i + 1;
        while j < n && s.as_str().get_char(j) != ':'
            invariant
                n == s@.len(),
                i < j <= n,
                forall|t: int| i < t < j ==> s@[t] != ':',
            decreases n - j,
        {
            j += 1;
        }
        if j < n {
            return TestMode::Unthrottled;
        }
        let head = s.as_str().substring_char(0, i);
        let tail = s.as_str().substring_char(i + 1, n);
        let value = parse_u64(tail);
        if str_eq(head, "delay") {
            proof {
                reveal_strlit("delay");
                assert("delay"@ =~= delay_keyword());
            }
            match value {
                Some(v) => TestMode::Delay(v),
                None => TestMode::Unthrottled,
            }
        } else if str_eq(head, "speed_limit") {
            proof {
                reveal_strlit("delay");
                reveal_strlit("speed_limit");
                assert("delay"@ =~= delay_keyword());
                assert("speed_limit"@ =~= speed_limit_keyword());
            }
            match value {
                Some(v) => TestMode::SpeedLimit(v),
                None => TestMode::Unthrottled,
            }
        } else {
            proof {
                reveal_strlit("delay");
                reveal_strlit("speed_limit");
                assert("delay"@ =~= delay_keyword());
                assert("speed_limit"@ =~= speed_limit_keyword());
            }
            TestMode::Unthrottled
        }
    }

    /// Whether this run's exclusion patterns exclude `path`.
    pub fn should_exclude(&self, path: &str) -> (r: bool)
        ensures
            r == spec_excluded(path@, spec_cli_patterns(self)),
    {
        match &self.exclude {
            Some(patterns) => is_excluded(path, patterns),
            None => {
                proof {
                    assert(!spec_excluded(path@, Seq::<Seq<char>>::empty()));
                }
                false
            },
        }
    }
}

} // verus!
