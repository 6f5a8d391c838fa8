use vstd::prelude::*;
use vstd::string::StrSliceExecFns;
use vstd::string::StringExecFns;

verus! {

/// One pending sysfs write: a path and the exact value to write there.
#[derive(Clone, Debug, PartialEq, Eq)]
pub struct SysfsWrite {
    pub path: String,
    pub value: String,
}

/// The three writes that configure one CPU core, in the order they are
/// issued: minimum frequency, maximum frequency, then governor.
#[derive(Clone, Debug, PartialEq, Eq)]
pub struct CpuSetting {
    pub minimum: SysfsWrite,
    pub maximum: SysfsWrite,
    pub governor: SysfsWrite,
}

pub open spec fn digit_char(d: nat) -> char {
    if d == 0 {
        '0'
    } else if d == 1 {
        '1'
    } else if d == 2 {
        '2'
    } else if d == 3 {
        '3'
    } else if d == 4 {
        '4'
    } else if d == 5 {
        '5'
    } else if d == 6 {
        '6'
    } else if d == 7 {
        '7'
    } else if d == 8 {
        '8'
    } else {
        '9'
    }
}

/// The decimal digits of `n`, most significant first.
pub open spec fn decimal(n: nat) -> Seq<char>
    decreases n,
{
    if n < 10 {
        seq![digit_char(n)]
    } else {
        decimal(n / 10).push(digit_char(n % 10))
    }
}

fn push_digit(s: &mut String, d: usize)
    requires
        d < 10,
    ensures
        final(s)@ == old(s)@ + seq![digit_char(d as nat)],
{
    let c: &str = if d == 0 {
        "0"
    } else if d == 1 {
        "1"
    } else if d == 2 {
        "2"
    } else if d == 3 {
        "3"
    } else if d == 4 {
        "4"
    } else if d == 5 {
        "5"
    } else if d == 6 {
        "6"
    } else if d == 7 {
        "7"
    } else if d == 8 {
        "8"
    } else {
        "9"
    };
    proof {
        reveal_strlit("0");
        reveal_strlit("1");
        reveal_strlit("2");
        reveal_strlit("3");
        reveal_strlit("4");
        reveal_strlit("5");
        reveal_strlit("6");
        reveal_strlit("7");
        reveal_strlit("8");
        reveal_strlit("9");
        assert(c@ =~= seq![digit_char(d as nat)]);
    }
    s.append(c);
}

/// Append the decimal form of `n`.
fn push_decimal(s: &mut String, n: usize)
    ensures
        final(s)@ == old(s)@ + decimal(n as nat),
    decreases n,
{
    if n >= 10 {
        push_decimal(s, n / 10);
    }
    push_digit(s, n % 10);
    proof {
        if n >= 10 {
            assert(old(s)@ + decimal((n / 10) as nat) + seq![digit_char((n % 10) as nat)] =~= old(
                s,
            )@ + decimal(n as nat));
        } else {
            assert(old(s)@ + seq![digit_char(n as nat)] =~= old(s)@ + decimal(n as nat));
        }
    }
}

pub open spec fn is_ws(c: char) -> bool {
    c == ' ' || c == '\n' || c == '\t' || c == '\r'
}

/// The text with trailing whitespace removed.
pub open spec fn trimmed_end(s: Seq<char>) -> Seq<char>
    decreases s.len(),
{
    if s.len() == 0 {
        s
    } else if is_ws(s.last()) {
        trimmed_end(s.drop_last())
    } else {
        s
    }
}

pub open spec fn is_digit(c: char) -> bool {
    48 <= c as u32 <= 57
}

pub open spec fn digit_of(c: char) -> nat {
    (c as u32 - 48) as nat
}

pub open spec fn all_digits(s: Seq<char>) -> bool {
    forall|i: int| 0 <= i < s.len() ==> is_digit(s[i])
}

/// The number the decimal digits denote, most significant first.
pub open spec fn digits_val(s: Seq<char>) -> nat
    decreases s.len(),
{
    if s.len() == 0 {
        0
    } else {
        digits_val(s.drop_last()) * 10 + digit_of(s.last())
    }
}

/// What parsing a numeric sysfs field yields: the value of its decimal
/// digits once trailing whitespace is stripped, or nothing when the field
/// is empty, holds a non-digit, or does not fit.
pub open spec fn spec_parse_usize(s: Seq<char>) -> Option<usize> {
    let t = trimmed_end(s);
    if t.len() > 0 && all_digits(t) && digits_val(t) <= usize::MAX {
        Some(digits_val(t) as usize)
    } else {
        None
    }
}

proof fn lemma_digits_val_prefix(t: Seq<char>, i: int)
    requires
        0 <= i <= t.len(),
    ensures
        digits_val(t.take(i)) <= digits_val(t),
    decreases t.len() - i,
{
    if i < t.len() {
        assert(t.take(i + 1).drop_last() =~= t.take(i));
        assert(t.take(i + 1).last() == t[i]);
        assert(digits_val(t.take(i)) <= digits_val(t.take(i + 1)));
        lemma_digits_val_prefix(t, i + 1);
        assert(t.take(t.len() as int) =~= t);
    } else {
        assert(t.take(i) =~= t);
    }
}

proof fn lemma_digit_char_val(d: nat)
    requires
        d < 10,
    ensures
        digit_of(digit_char(d)) == d,
        is_digit(digit_char(d)),
        !is_ws(digit_char(d)),
{
    assert('0' as u32 == 48 && '1' as u32 == 49 && '2' as u32 == 50 && '3' as u32 == 51 && '4'
        as u32 == 52 && '5' as u32 == 53 && '6' as u32 == 54 && '7' as u32 == 55 && '8' as u32
        == 56 && '9' as u32 == 57);
}

proof fn lemma_decimal_digits(n: nat)
    ensures
        all_digits(decimal(n)),
        digits_val(decimal(n)) == n,
        decimal(n).len() > 0,
        !is_ws(decimal(n).last()),
        trimmed_end(decimal(n)) == decimal(n),
    decreases n,
{
    if n < 10 {
        lemma_digit_char_val(n);
        assert(decimal(n).drop_last() =~= Seq::<char>::empty());
        assert(decimal(n).last() == digit_char(n));
        assert(digits_val(decimal(n)) == digits_val(Seq::<char>::empty()) * 10 + digit_of(
            digit_char(n),
        ));
    } else {
        lemma_digit_char_val(n % 10);
        lemma_decimal_digits(n / 10);
        assert(decimal(n).drop_last() =~= decimal(n / 10));
        assert(decimal(n).last() == digit_char(n % 10));
        assert(digits_val(decimal(n)) == digits_val(decimal(n / 10)) * 10 + digit_of(
            digit_char(n % 10),
        ));
        assert(digits_val(decimal(n)) == (n / 10) * 10 + n % 10);
        assert forall|i: int| 0 <= i < decimal(n).len() implies is_digit(decimal(n)[i]) by {
            if i < decimal(n).len() - 1 {
                assert(decimal(n)[i] == decimal(n / 10)[i]);
            }
        }
    }
}

/// Parsing renders formatting exactly: the decimal text of any value reads
/// back as that value.
pub proof fn lemma_parse_decimal(n: usize)
    ensures
        spec_parse_usize(decimal(n as nat)) == Some(n),
{
    lemma_decimal_digits(n as nat);
}

/// Parse one numeric field, ignoring trailing whitespace.
fn parse_field(text: &str) -> (r: Option<usize>)
    ensures
        r == spec_parse_usize(text@),
{
    let n = text.unicode_len();
    let mut end: usize = 0;
    let mut j: usize = 0;
    while j < n
        invariant
            end <= j <= n,
            n == text@.len(),
            trimmed_end(text@.take(j as int)) == text@.take(end as int),
        decreases n - j,
    {
        let c = text.get_char(j);
        proof {
            assert(text@.take(j as int + 1).drop_last() =~= text@.take(j as int));
            assert(text@.take(j as int + 1).last() == text@[j as int]);
        }
        if !(c == ' ' || c == '\n' || c == '\t' || c == '\r') {
            end = j + 1;
        }
        j += 1;
    }
    proof {
        assert(text@.take(n as int) =~= text@);
        assert(trimmed_end(text@) == text@.take(end as int));
    }
    let ghost t = text@.take(end as int);
    if end == 0 {
        return None;
    }
    let mut acc: usize = 0;
    let mut i: usize = 0;
    while i < end
        invariant
            i <= end,
            0 < end <= n,
            n == text@.len(),
            t == text@.take(end as int),
            t == trimmed_end(text@),
            forall|j: int| 0 <= j < i ==> is_digit(t[j]),
            acc as nat == digits_val(t.take(i as int)),
        decreases end - i,
    {
        let c = text.get_char(i);
        let cu = c as u32;
        if cu < 48 || cu > 57 {
            assert(t[i as int] == text@[i as int]);
            assert(!is_digit(t[i as int]));
            return None;
        }
        let d = (cu - 48) as usize;
        proof {
            assert(t.take(i as int + 1).drop_last() =~= t.take(i as int));
            assert(t.take(i as int + 1).last() == t[i as int]);
        }
        let next = match acc.checked_mul(10) {
            Some(a) => a.checked_add(d),
            None => None,
        };
        match next {
            Some(a) => {
                acc = a;
            },
            None => {
                proof {
                    assert(digits_val(t.take(i as int + 1)) > usize::MAX);
                    lemma_digits_val_prefix(t, i as int + 1);
                }
                return None;
            },
        }
        i += 1;
    }
    proof {
        assert(t.take(end as int) =~= t);
    }
    Some(acc)
}

/// The hardware maximum frequency a core reports: the numeric content of
/// its `cpuinfo_max_freq` field.
pub fn frequency_maximum(text: &str) -> (r: Option<usize>)
    ensures
        r == spec_parse_usize(text@),
{
    parse_field(text)
}

/// The hardware minimum frequency a core reports: the numeric content of
/// its `cpuinfo_min_freq` field.
pub fn frequency_minimum(text: &str) -> (r: Option<usize>)
    ensures
        r == spec_parse_usize(text@),
{
    parse_field(text)
}

/// What the highest possible CPU index is: the field after the first `'-'`
/// of the kernel's `possible` range (e.g. `"0-7"` gives 7), or nothing when
/// the range has no `'-'` or the field is not numeric.
pub open spec fn spec_num_cpus(s: Seq<char>) -> Option<usize> {
    let a = crate::first_at(s, '-');
    if a == s.len() {
        None
    } else {
        let rest = s.skip(a + 1);
        spec_parse_usize(rest.take(crate::first_at(rest, '-')))
    }
}

/// The highest possible CPU index, from the kernel's `possible` range text.
pub fn num_cpus(text: &str) -> (r: Option<usize>)
    ensures
        r == spec_num_cpus(text@),
{
    let n = text.unicode_len();
    let a = crate::find_at(text, '-');
    if a == n {
        return None;
    }
    let rest = text.substring_char(a + 1, n);
    proof {
        assert(rest@ =~= text@.skip(a as int + 1));
    }
    let b = crate::find_at(rest, '-');
    let field = rest.substring_char(0, b);
    proof {
        assert(field@ =~= rest@.take(b as int));
    }
    parse_field(field)
}

/// The per-core cpufreq directory.
pub open spec fn sys_path_spec(core: nat) -> Seq<char> {
    "/sys/devices/system/cpu/cpu"@ + decimal(core) + "/cpufreq/"@
}

/// The cpufreq directory of one core, e.g. core 2 gives
/// `/sys/devices/system/cpu/cpu2/cpufreq/`.
pub fn sys_path(core: usize) -> (r: String)
    ensures
        r@ == sys_path_spec(core as nat),
{
    let mut r: String = "/sys/devices/system/cpu/cpu".to_owned();
    push_decimal(&mut r, core);
    r.append("/cpufreq/");
    proof {
        assert(r@ =~= sys_path_spec(core as nat));
    }
    r
}

/// The write that sets one core's maximum scaling frequency.
pub fn set_frequency_maximum(core: usize, frequency: usize) -> (w: SysfsWrite)
    ensures
        w.path@ == sys_path_spec(core as nat) + "scaling_max_freq"@,
        w.value@ == decimal(frequency as nat),
{
    let mut path = sys_path(core);
    path.append("scaling_max_freq");
    let mut value = String::new();
    push_decimal(&mut value, frequency);
    proof {
        assert(value@ =~= decimal(frequency as nat));
    }
    SysfsWrite { path, value }
}

/// The write that sets one core's minimum scaling frequency.
pub fn set_frequency_minimum(core: usize, frequency: usize) -> (w: SysfsWrite)
    ensures
        w.path@ == sys_path_spec(core as nat) + "scaling_min_freq"@,
        w.value@ == decimal(frequency as nat),
{
    let mut path = sys_path(core);
    path.append("scaling_min_freq");
    let mut value = String::new();
    push_decimal(&mut value, frequency);
    proof {
        assert(value@ =~= decimal(frequency as nat));
    }
    SysfsWrite { path, value }
}

/// The write that sets one core's scaling governor.
pub fn set_governor(core: usize, governor: &str) -> (w: SysfsWrite)
    ensures
        w.path@ == sys_path_spec(core as nat) + "scaling_governor"@,
        w.value@ == governor@,
{
    let mut path = sys_path(core);
    path.append("scaling_governor");
    SysfsWrite { path, value: governor.to_owned() }
}

/// One core's settings hold the given frequencies and governor.
pub open spec fn setting_is(
    s: CpuSetting,
    core: nat,
    minimum: nat,
    maximum: nat,
    governor: Seq<char>,
) -> bool {
    &&& s.minimum.path@ == sys_path_spec(core) + "scaling_min_freq"@
    &&& s.minimum.value@ == decimal(minimum)
    &&& s.maximum.path@ == sys_path_spec(core) + "scaling_max_freq"@
    &&& s.maximum.value@ == decimal(maximum)
    &&& s.governor.path@ == sys_path_spec(core) + "scaling_governor"@
    &&& s.governor.value@ == governor
}

fn plan(cpus: usize, minimum: usize, maximum: usize, governor: &str) -> (w: Vec<CpuSetting>)
    ensures
        w@.len() == cpus,
        forall|c: int|
            0 <= c < cpus ==> setting_is(
                #[trigger] w@[c],
                c as nat,
                minimum as nat,
                maximum as nat,
                governor@,
            ),
{
    let mut w: Vec<CpuSetting> = Vec::new();
    let mut cpu: usize = 0;
    while cpu < cpus
        invariant
            cpu <= cpus,
            w@.len() == cpu,
            forall|c: int|
                0 <= c < cpu ==> setting_is(
                    #[trigger] w@[c],
                    c as nat,
                    minimum as nat,
                    maximum as nat,
                    governor@,
                ),
        decreases cpus - cpu,
    {
        let s = CpuSetting {
            minimum: set_frequency_minimum(cpu, minimum),
            maximum: set_frequency_maximum(cpu, maximum),
            governor: set_governor(cpu, governor),
        };
        w.push(s);
        cpu += 1;
    }
    w
}

/// The power-saving plan: when the core count and the hardware frequency
/// bounds are all known, every core gets the hardware minimum, half the
/// hardware maximum, and the `powersave` governor; when any reading is
/// missing, no write is planned.
pub fn powersave(cpus: Option<usize>, minimum: Option<usize>, maximum: Option<usize>) -> (w: Vec<
    CpuSetting,
>)
    ensures
        cpus is None || minimum is None || maximum is None ==> w@.len() == 0,
        cpus is Some && minimum is Some && maximum is Some ==> w@.len() == cpus.unwrap()
            && forall|c: int|
            0 <= c < w@.len() ==> setting_is(
                #[trigger] w@[c],
                c as nat,
                minimum.unwrap() as nat,
                (maximum.unwrap() / 2) as nat,
                "powersave\n"@,
            ),
{
    match (cpus, minimum, maximum) {
        (Some(n), Some(mn), Some(mx)) => plan(n, mn, mx / 2, "powersave\n"),
        _ => Vec::new(),
    }
}

/// The performance plan: when the core count and the hardware frequency
/// bounds are all known, every core gets the full hardware range and the
/// `performance` governor; when any reading is missing, no write is
/// planned.
pub fn performance(cpus: Option<usize>, minimum: Option<usize>, maximum: Option<usize>) -> (w: Vec<
    CpuSetting,
>)
    ensures
        cpus is None || minimum is None || maximum is None ==> w@.len() == 0,
        cpus is Some && minimum is Some && maximum is Some ==> w@.len() == cpus.unwrap()
            && forall|c: int|
            0 <= c < w@.len() ==> setting_is(
                #[trigger] w@[c],
                c as nat,
                minimum.unwrap() as nat,
                maximum.unwrap() as nat,
                "performance\n"@,
            ),
{
    match (cpus, minimum, maximum) {
        (Some(n), Some(mn), Some(mx)) => plan(n, mn, mx, "performance\n"),
        _ => Vec::new(),
    }
}

} // verus!
