//! Readings of the machine's state, as found in the texts that the system
//! gives out.

use crate::text;
use vstd::prelude::*;

verus! {

/// The words of a text: what stands between white space.
pub open spec fn words(s: Seq<char>) -> Seq<Seq<char>>
    decreases s.len(),
{
    if s.len() == 0 {
        Seq::empty()
    } else {
        let before = words(s.drop_last());
        let c = s.last();
        if text::white(c) {
            before
        } else if s.len() == 1 || text::white(s[s.len() - 2]) {
            before.push(seq![c])
        } else {
            before.update(before.len() - 1, before.last().push(c))
        }
    }
}

/// The words of a text.
pub fn words_of(s: &[char]) -> (r: Vec<Vec<char>>)
    ensures
        text::parts_view(r@) == words(s@),
{
    let mut done: Vec<Vec<char>> = Vec::new();
    let mut current: Vec<char> = Vec::new();
    let mut i: usize = 0;
    assert(text::parts_view(done@) =~= words(s@.take(0)));
    while i < s.len()
        invariant
            i <= s@.len(),
            current@.len() == 0 ==> text::parts_view(done@) == words(s@.take(i as int)),
            current@.len() > 0 ==> text::parts_view(done@).push(current@) == words(
                s@.take(i as int),
            ),
            (current@.len() > 0) <==> (i > 0 && !text::white(s@[i - 1])),
        decreases s@.len() - i,
    {
        let c: char = s[i];
        let ghost here = s@.take(i as int);
        let ghost next = s@.take(i + 1);
        assert(next.drop_last() =~= here);
        assert(next.last() == c);
        assert(i > 0 ==> next[next.len() - 2] == s@[i - 1]);
        if text::is_white(c) {
            if current.len() > 0 {
                let ghost before = text::parts_view(done@);
                done.push(current);
                assert(text::parts_view(done@) =~= words(here));
                current = Vec::new();
            }
        } else {
            let ghost old_current = current@;
            current.push(c);
            proof {
                if old_current.len() == 0 {
                    assert(current@ =~= seq![c]);
                }
                assert(text::parts_view(done@).push(current@) =~= words(next));
            }
        }
        i = i + 1;
    }
    assert(s@.take(i as int) =~= s@);
    if current.len() > 0 {
        let ghost before = text::parts_view(done@);
        let ghost last = current@;
        done.push(current);
        assert(text::parts_view(done@) =~= before.push(last));
    }
    done
}

/// A line without the carriage return that belongs to its line ending.
pub open spec fn strip_cr(s: Seq<char>) -> Seq<char> {
    if s.len() > 0 && s.last() == '\r' {
        s.drop_last()
    } else {
        s
    }
}

/// The lines of a text. The last one counts only if it is not empty.
pub open spec fn lines(s: Seq<char>) -> Seq<Seq<char>> {
    let parts = text::split(s, '\n');
    let last = parts.last();
    let closed = Seq::new((parts.len() - 1) as nat, |i: int| strip_cr(parts[i]));
    if last.len() > 0 {
        closed.push(last)
    } else {
        closed
    }
}

/// The lines of a text.
pub fn lines_of(s: &[char]) -> (r: Vec<Vec<char>>)
    ensures
        text::parts_view(r@) == lines(s@),
{
    let mut parts: Vec<Vec<char>> = text::split_on(s, '\n');
    let ghost all = text::split(s@, '\n');
    proof {
        text::lemma_split_not_empty(s@, '\n');
        assert(text::parts_view(parts@).len() == all.len());
    }
    let last: Vec<char> = parts.pop().unwrap();
    assert(last@ == all.last());
    let mut r: Vec<Vec<char>> = Vec::new();
    let ghost closed = Seq::new((all.len() - 1) as nat, |i: int| strip_cr(all[i]));
    let mut i: usize = 0;
    while i < parts.len()
        invariant
            i <= parts@.len(),
            parts@.len() == all.len() - 1,
            forall|k: int| 0 <= k < parts@.len() ==> (#[trigger] parts@[k])@ == all[k],
            closed == Seq::new((all.len() - 1) as nat, |i: int| strip_cr(all[i])),
            text::parts_view(r@) =~= closed.take(i as int),
        decreases parts@.len() - i,
    {
        let line: &Vec<char> = &parts[i];
        assert(parts@[i as int]@ == all[i as int]);
        let n: usize = line.len();
        let kept: usize = if n > 0 && line[n - 1] == '\r' { n - 1 } else { n };
        let copy: Vec<char> = copy_range(line.as_slice(), 0, kept);
        assert(copy@ =~= strip_cr(all[i as int]));
        let ghost before = text::parts_view(r@);
        let ghost added = copy@;
        r.push(copy);
        i = i + 1;
        assert(text::parts_view(r@) =~= before.push(added));
        assert(closed.take(i as int) =~= closed.take(i - 1).push(closed[i - 1]));
    }
    assert(closed.take(i as int) =~= closed);
    if last.len() > 0 {
        let ghost before = text::parts_view(r@);
        r.push(last);
        assert(text::parts_view(r@) =~= before.push(last@));
    }
    r
}

/// Copy of a part of a list of characters.
pub fn copy_range(s: &[char], from: usize, to: usize) -> (r: Vec<char>)
    requires
        from <= to <= s@.len(),
    ensures
        r@ == s@.subrange(from as int, to as int),
{
    let mut r: Vec<char> = Vec::new();
    let mut i: usize = from;
    while i < to
        invariant
            from <= i <= to <= s@.len(),
            r@ =~= s@.subrange(from as int, i as int),
        decreases to - i,
    {
        r.push(s[i]);
        i = i + 1;
    }
    r
}

/// What follows a prefix, if the text has it.
pub open spec fn after_prefix(s: Seq<char>, prefix: Seq<char>) -> Option<Seq<char>> {
    if prefix.len() <= s.len() && s.take(prefix.len() as int) == prefix {
        Some(s.skip(prefix.len() as int))
    } else {
        None
    }
}

/// What follows a prefix, if the text has it.
pub fn strip_prefix(s: &[char], prefix: &str) -> (r: Option<Vec<char>>)
    ensures
        r is Some <==> after_prefix(s@, prefix@) is Some,
        r is Some ==> r->0@ == after_prefix(s@, prefix@)->0,
{
    let wanted: Vec<char> = text::chars_of(prefix);
    if wanted.len() > s.len() {
        return None;
    }
    let mut i: usize = 0;
    while i < wanted.len()
        invariant
            i <= wanted@.len() <= s@.len(),
            wanted@ == prefix@,
            forall|k: int| 0 <= k < i ==> s@[k] == wanted@[k],
        decreases wanted@.len() - i,
    {
        if s[i] != wanted[i] {
            assert(s@.take(wanted@.len() as int)[i as int] != prefix@[i as int]);
            return None;
        }
        i = i + 1;
    }
    assert(s@.take(wanted@.len() as int) =~= prefix@);
    let r: Vec<char> = copy_range(s, wanted.len(), s.len());
    assert(r@ =~= s@.skip(prefix@.len() as int));
    Some(r)
}

/// The words that are numbers, in order.
pub open spec fn numbers(parts: Seq<Seq<char>>) -> Seq<nat>
    decreases parts.len(),
{
    if parts.len() == 0 {
        Seq::empty()
    } else {
        let before = numbers(parts.drop_last());
        match text::parsed_number(parts.last(), 10, u64::MAX as nat) {
            Some(n) => before.push(n),
            None => before,
        }
    }
}

/// The counters of a processor line: its numbers, when it is the line for all
/// processors and has at least four of them.
pub open spec fn cpu_counters(content: Seq<char>) -> Option<Seq<nat>> {
    let all = lines(content);
    if all.len() == 0 {
        None
    } else {
        let fields = words(all[0]);
        if fields.len() == 0 || fields[0] != "cpu"@ {
            None
        } else {
            let nums = numbers(fields.skip(1));
            if nums.len() < 4 {
                None
            } else {
                Some(nums)
            }
        }
    }
}

/// Machine numbers as mathematical ones.
pub open spec fn as_nats(v: Seq<u64>) -> Seq<nat> {
    Seq::new(v.len(), |i: int| v[i] as nat)
}

/// Counters of all processors together, read from the kernel's statistics.
pub fn read_cpu_counters(content: &str) -> (r: Option<Vec<u64>>)
    ensures
        r is Some <==> cpu_counters(content@) is Some,
        r is Some ==> as_nats(r->0@) == cpu_counters(content@)->0,
{
    let chars: Vec<char> = text::chars_of(content);
    let all: Vec<Vec<char>> = lines_of(chars.as_slice());
    let ghost spec_lines = lines(content@);
    assert(text::parts_view(all@).len() == spec_lines.len());
    if all.len() == 0 {
        return None;
    }
    assert(all@[0]@ == text::parts_view(all@)[0]);
    let fields: Vec<Vec<char>> = words_of(all[0].as_slice());
    let ghost spec_fields = words(spec_lines[0]);
    assert(text::parts_view(fields@).len() == spec_fields.len());
    if fields.len() == 0 {
        return None;
    }
    assert(fields@[0]@ == text::parts_view(fields@)[0]);
    if !text::same_text(fields[0].as_slice(), "cpu") {
        return None;
    }
    let mut nums: Vec<u64> = Vec::new();
    let mut i: usize = 1;
    let ghost rest = spec_fields.skip(1);
    assert(rest.take(0) =~= Seq::<Seq<char>>::empty());
    while i < fields.len()
        invariant
            1 <= i <= fields@.len(),
            text::parts_view(fields@) == spec_fields,
            rest == spec_fields.skip(1),
            as_nats(nums@) =~= numbers(rest.take(i - 1)),
        decreases fields@.len() - i,
    {
        let ghost next = rest.take(i as int);
        assert(next.drop_last() =~= rest.take(i - 1));
        assert(next.last() == text::parts_view(fields@)[i as int]);
        let parsed: Option<u64> = text::parse_number(fields[i].as_slice(), 10, u64::MAX);
        if let Some(n) = parsed {
            nums.push(n);
        }
        i = i + 1;
    }
    assert(rest.take(i - 1) =~= rest);
    assert(as_nats(nums@) == numbers(rest));
    if nums.len() < 4 {
        return None;
    }
    Some(nums)
}

/// Sum of counters.
pub open spec fn total(nums: Seq<u64>) -> nat
    decreases nums.len(),
{
    if nums.len() == 0 {
        0
    } else {
        total(nums.drop_last()) + nums.last() as nat
    }
}

proof fn lemma_total_mono(nums: Seq<u64>, n: int)
    requires
        0 <= n <= nums.len(),
    ensures
        total(nums.take(n)) <= total(nums),
    decreases nums.len() - n,
{
    if n < nums.len() {
        lemma_total_mono(nums, n + 1);
        assert(nums.take(n + 1).drop_last() =~= nums.take(n));
    } else {
        assert(nums.take(n) =~= nums);
    }
}

/// Idle time among the counters: the fourth, and the fifth where there is one.
pub open spec fn idle(nums: Seq<u64>) -> int {
    nums[3] + (if nums.len() > 4 {
        nums[4] as int
    } else {
        0
    })
}

/// The idle time is part of the total.
proof fn lemma_idle_within_total(nums: Seq<u64>)
    requires
        nums.len() >= 4,
    ensures
        idle(nums) <= total(nums),
{
    assert(nums.take(4).drop_last() =~= nums.take(3));
    assert(nums.take(4).last() == nums[3]);
    lemma_total_mono(nums, 4);
    if nums.len() > 4 {
        assert(nums.take(5).drop_last() =~= nums.take(4));
        assert(nums.take(5).last() == nums[4]);
        lemma_total_mono(nums, 5);
    }
}

/// Total and idle time from the counters.
pub fn cpu_total_idle(nums: &[u64]) -> (r: (u64, u64))
    requires
        nums@.len() >= 4,
        total(nums@) <= u64::MAX,
    ensures
        r.0 == total(nums@),
        r.1 == idle(nums@),
{
    proof {
        lemma_idle_within_total(nums@);
    }
    let idle: u64 = nums[3] + (if nums.len() > 4 { nums[4] } else { 0 });
    let mut sum: u64 = 0;
    let mut i: usize = 0;
    assert(nums@.take(0) =~= Seq::<u64>::empty());
    while i < nums.len()
        invariant
            i <= nums@.len(),
            total(nums@) <= u64::MAX,
            sum == total(nums@.take(i as int)),
        decreases nums@.len() - i,
    {
        proof {
            lemma_total_mono(nums@, i + 1);
            assert(nums@.take(i + 1).drop_last() =~= nums@.take(i as int));
        }
        sum = sum + nums[i];
        i = i + 1;
    }
    assert(nums@.take(i as int) =~= nums@);
    (sum, idle)
}

/// First word of a text as a number; no reading at all without a word, an
/// unknown value when the word is no number.
pub open spec fn first_number(s: Seq<char>) -> Option<Option<nat>> {
    let parts = words(s);
    if parts.len() == 0 {
        None
    } else {
        Some(text::parsed_number(parts[0], 10, u64::MAX as nat))
    }
}

/// State while the lines of the memory statistics are read: the two values
/// found so far, or nothing once a line had no value.
pub open spec fn meminfo_fold(all: Seq<Seq<char>>) -> Option<(Option<nat>, Option<nat>)>
    decreases all.len(),
{
    if all.len() == 0 {
        Some((None, None))
    } else {
        match meminfo_fold(all.drop_last()) {
            None => None,
            Some((total, available)) => match after_prefix(all.last(), "MemTotal:"@) {
                Some(rest) => match first_number(rest) {
                    Some(value) => Some((value, available)),
                    None => None,
                },
                None => match after_prefix(all.last(), "MemAvailable:"@) {
                    Some(rest) => match first_number(rest) {
                        Some(value) => Some((total, value)),
                        None => None,
                    },
                    None => Some((total, available)),
                },
            },
        }
    }
}

/// Total and available memory.
pub open spec fn meminfo(content: Seq<char>) -> Option<(nat, nat)> {
    match meminfo_fold(lines(content)) {
        Some((Some(total), Some(available))) => Some((total, available)),
        _ => None,
    }
}

fn read_first_number(s: &[char]) -> (r: Option<Option<u64>>)
    ensures
        r is Some <==> first_number(s@) is Some,
        r is Some ==> (r->0 is Some <==> first_number(s@)->0 is Some),
        r is Some && r->0 is Some ==> r->0->0 == first_number(s@)->0->0,
{
    let parts: Vec<Vec<char>> = words_of(s);
    assert(text::parts_view(parts@).len() == parts@.len());
    if parts.len() == 0 {
        return None;
    }
    assert(parts@[0]@ == text::parts_view(parts@)[0]);
    Some(text::parse_number(parts[0].as_slice(), 10, u64::MAX))
}

/// An optional machine number as a mathematical one.
pub open spec fn opt_nat(v: Option<u64>) -> Option<nat> {
    match v {
        Some(n) => Some(n as nat),
        None => None,
    }
}

/// Total and available memory, read from the kernel's statistics. Nothing when
/// one of them is missing.
pub fn read_meminfo(content: &str) -> (r: Option<(u64, u64)>)
    ensures
        r is Some <==> meminfo(content@) is Some,
        r is Some ==> ((r->0).0 as nat, (r->0).1 as nat) == meminfo(content@)->0,
{
    let chars: Vec<char> = text::chars_of(content);
    let all: Vec<Vec<char>> = lines_of(chars.as_slice());
    let ghost spec_lines = lines(content@);
    let mut total: Option<u64> = None;
    let mut available: Option<u64> = None;
    let mut i: usize = 0;
    assert(spec_lines.take(0) =~= Seq::<Seq<char>>::empty());
    while i < all.len()
        invariant
            i <= all@.len(),
            text::parts_view(all@) == spec_lines,
            spec_lines == lines(content@),
            meminfo_fold(spec_lines.take(i as int)) == Some((opt_nat(total), opt_nat(available))),
        decreases all@.len() - i,
    {
        let ghost next = spec_lines.take(i + 1);
        assert(next.drop_last() =~= spec_lines.take(i as int));
        assert(next.last() == text::parts_view(all@)[i as int]);
        let line: &[char] = all[i].as_slice();
        if let Some(rest) = strip_prefix(line, "MemTotal:") {
            match read_first_number(rest.as_slice()) {
                Some(value) => {
                    total = value;
                },
                None => {
                    proof {
                        lemma_meminfo_stops(spec_lines, i + 1);
                    }
                    return None;
                },
            }
        } else if let Some(rest) = strip_prefix(line, "MemAvailable:") {
            match read_first_number(rest.as_slice()) {
                Some(value) => {
                    available = value;
                },
                None => {
                    proof {
                        lemma_meminfo_stops(spec_lines, i + 1);
                    }
                    return None;
                },
            }
        }
        i = i + 1;
    }
    assert(spec_lines.take(i as int) =~= spec_lines);
    match (total, available) {
        (Some(total), Some(available)) => Some((total, available)),
        _ => None,
    }
}

/// Once a line had no value, nothing is read from the rest.
proof fn lemma_meminfo_stops(all: Seq<Seq<char>>, n: int)
    requires
        0 <= n <= all.len(),
        meminfo_fold(all.take(n)) is None,
    ensures
        meminfo_fold(all) is None,
    decreases all.len() - n,
{
    if n < all.len() {
        assert(all.take(n + 1).drop_last() =~= all.take(n));
        lemma_meminfo_stops(all, n + 1);
    } else {
        assert(all.take(n) =~= all);
    }
}

/// Share of the memory in use, in percent.
pub open spec fn used_percent(total: int, available: int) -> int {
    if available >= total {
        0
    } else {
        (total - available) * 100 / total
    }
}

/// Share of the memory in use, in percent; unknown when there is none.
pub fn ram_percent(total: u64, available: u64) -> (r: Option<u64>)
    requires
        total > available ==> (total - available) * 100 <= u64::MAX,
    ensures
        r is None <==> total == 0,
        r is Some ==> r->0 == used_percent(total as int, available as int),
{
    if total == 0 {
        return None;
    }
    let used: u64 = if total > available { total - available } else { 0 };
    Some(used * 100 / total)
}

/// A battery as the system describes it.
#[derive(Debug)]
pub struct PowerSupply {
    pub name: String,
    /// Text with the charge in percent, if it could be read.
    pub capacity: Option<String>,
    /// Text with the charging state, if it could be read.
    pub status: Option<String>,
}

/// The reading of one power supply: charge in percent and whether it charges.
/// Nothing when it is no battery or its charge is no small number.
pub open spec fn supply_reading(supply: PowerSupply) -> Option<(nat, bool)> {
    if after_prefix(supply.name@, "BAT"@) is None || supply.capacity is None {
        None
    } else {
        match text::parsed_number(text::trim(supply.capacity->0@), 10, 255) {
            None => None,
            Some(percent) => Some(
                (
                    percent,
                    supply.status is Some && text::lower_all(text::trim(supply.status->0@))
                        == "charging"@,
                ),
            ),
        }
    }
}

/// The reading of the first supply that has one.
pub open spec fn battery_reading(supplies: Seq<PowerSupply>) -> Option<(nat, bool)>
    decreases supplies.len(),
{
    if supplies.len() == 0 {
        None
    } else {
        match supply_reading(supplies[0]) {
            Some(reading) => Some(reading),
            None => battery_reading(supplies.drop_first()),
        }
    }
}

fn read_supply(supply: &PowerSupply) -> (r: Option<(u8, bool)>)
    ensures
        r is Some <==> supply_reading(*supply) is Some,
        r is Some ==> ((r->0).0 as nat, (r->0).1) == supply_reading(*supply)->0,
{
    let name: Vec<char> = text::chars_of(supply.name.as_str());
    if strip_prefix(name.as_slice(), "BAT").is_none() {
        return None;
    }
    let capacity: Vec<char> = match &supply.capacity {
        Some(capacity) => text::chars_of(capacity.as_str()),
        None => return None,
    };
    let digits: Vec<char> = text::trimmed(capacity.as_slice());
    let percent: u64 = match text::parse_number(digits.as_slice(), 10, 255) {
        Some(percent) => percent,
        None => return None,
    };
    let charging: bool = match &supply.status {
        Some(status) => {
            let chars: Vec<char> = text::chars_of(status.as_str());
            let trimmed: Vec<char> = text::trimmed(chars.as_slice());
            let lower: Vec<char> = text::to_lower(trimmed.as_slice());
            text::same_text(lower.as_slice(), "charging")
        },
        None => false,
    };
    Some((percent as u8, charging))
}

/// Charge and charging state of the first battery that can be read.
pub fn battery_status(supplies: &[PowerSupply]) -> (r: Option<(u8, bool)>)
    ensures
        r is Some <==> battery_reading(supplies@) is Some,
        r is Some ==> ((r->0).0 as nat, (r->0).1) == battery_reading(supplies@)->0,
{
    let mut i: usize = 0;
    assert(supplies@.skip(0) =~= supplies@);
    while i < supplies.len()
        invariant
            i <= supplies@.len(),
            battery_reading(supplies@) == battery_reading(supplies@.skip(i as int)),
        decreases supplies@.len() - i,
    {
        if let Some(reading) = read_supply(&supplies[i]) {
            return Some(reading);
        }
        assert(supplies@.skip(i as int).drop_first() =~= supplies@.skip(i + 1));
        i = i + 1;
    }
    None
}

/// What follows the prefix in the first line that has it, once trimmed.
pub open spec fn find_line(all: Seq<Seq<char>>, prefix: Seq<char>) -> Option<Seq<char>>
    decreases all.len(),
{
    if all.len() == 0 {
        None
    } else {
        match after_prefix(text::trim(all[0]), prefix) {
            Some(rest) => Some(rest),
            None => find_line(all.drop_first(), prefix),
        }
    }
}

fn find_in_lines(all: &Vec<Vec<char>>, prefix: &str) -> (r: Option<Vec<char>>)
    ensures
        r is Some <==> find_line(text::parts_view(all@), prefix@) is Some,
        r is Some ==> r->0@ == find_line(text::parts_view(all@), prefix@)->0,
{
    let ghost views = text::parts_view(all@);
    let mut i: usize = 0;
    assert(views.skip(0) =~= views);
    while i < all.len()
        invariant
            i <= all@.len(),
            views == text::parts_view(all@),
            find_line(views, prefix@) == find_line(views.skip(i as int), prefix@),
        decreases all@.len() - i,
    {
        let line: Vec<char> = text::trimmed(all[i].as_slice());
        assert(views.skip(i as int)[0] == all@[i as int]@);
        if let Some(rest) = strip_prefix(line.as_slice(), prefix) {
            return Some(rest);
        }
        assert(views.skip(i as int).drop_first() =~= views.skip(i + 1));
        i = i + 1;
    }
    assert(views.skip(i as int).len() == 0);
    None
}

/// The wireless interface that the device listing names first.
pub fn wireless_interface(listing: &str) -> (r: Option<String>)
    ensures
        r is Some <==> find_line(lines(listing@), "Interface "@) is Some,
        r is Some ==> r->0@ == find_line(lines(listing@), "Interface "@)->0,
{
    let chars: Vec<char> = text::chars_of(listing);
    let all: Vec<Vec<char>> = lines_of(chars.as_slice());
    match find_in_lines(&all, "Interface ") {
        Some(name) => Some(text::string_of(name.as_slice())),
        None => None,
    }
}

/// A signed number in decimal that is a value of `i32`.
pub open spec fn parsed_i32(s: Seq<char>) -> Option<int> {
    if s.len() > 1 && s[0] == '-' {
        let body = s.drop_first();
        if text::all_digits(body, 10) && text::digits_number(body, 10) <= 0x8000_0000 {
            Some(-(text::digits_number(body, 10) as int))
        } else {
            None
        }
    } else {
        match text::parsed_number(s, 10, 0x7fff_ffff) {
            Some(n) => Some(n as int),
            None => None,
        }
    }
}

fn parse_i32(s: &[char]) -> (r: Option<i64>)
    ensures
        r is Some <==> parsed_i32(s@) is Some,
        r is Some ==> r->0 == parsed_i32(s@)->0 && -0x8000_0000 <= r->0 <= 0x7fff_ffff,
{
    if s.len() > 1 && s[0] == '-' {
        let body: Vec<char> = copy_range(s, 1, s.len());
        assert(body@ =~= s@.drop_first());
        if body[0] == '+' {
            assert(text::digit_value(s@.drop_first()[0]) == 16);
            return None;
        }
        match text::parse_number(body.as_slice(), 10, 0x8000_0000) {
            Some(n) => Some(-(n as i64)),
            None => None,
        }
    } else {
        match text::parse_number(s, 10, 0x7fff_ffff) {
            Some(n) => Some(n as i64),
            None => None,
        }
    }
}

/// The signal strength that a line of the link state gives, in dBm.
pub open spec fn line_signal(line: Seq<char>) -> Option<int> {
    match after_prefix(text::trim(line), "signal: "@) {
        None => None,
        Some(rest) => if words(rest).len() == 0 {
            None
        } else {
            parsed_i32(words(rest)[0])
        },
    }
}

/// The signal strength of the first line that gives one.
pub open spec fn find_signal(all: Seq<Seq<char>>) -> Option<int>
    decreases all.len(),
{
    if all.len() == 0 {
        None
    } else {
        match line_signal(all[0]) {
            Some(dbm) => Some(dbm),
            None => find_signal(all.drop_first()),
        }
    }
}

/// Signal strength in percent: nothing at -100 dBm, everything at -50 dBm.
pub open spec fn signal_percent(dbm: int) -> int {
    if 2 * (dbm + 100) < 0 {
        0
    } else if 2 * (dbm + 100) > 100 {
        100
    } else {
        2 * (dbm + 100)
    }
}

/// Network name and signal strength from the link state. Nothing when there is
/// no connection or no name; a missing strength counts as none.
pub open spec fn link_reading(link: Seq<char>) -> Option<(Seq<char>, int)> {
    if after_prefix(text::trim_start(link), "Not connected"@) is Some {
        None
    } else {
        match find_line(lines(link), "SSID: "@) {
            None => None,
            Some(name) => Some(
                (
                    name,
                    match find_signal(lines(link)) {
                        Some(dbm) => signal_percent(dbm),
                        None => 0,
                    },
                ),
            ),
        }
    }
}

fn find_signal_in(all: &Vec<Vec<char>>) -> (r: Option<i64>)
    ensures
        r is Some <==> find_signal(text::parts_view(all@)) is Some,
        r is Some ==> r->0 == find_signal(text::parts_view(all@))->0 && -0x8000_0000 <= r->0
            <= 0x7fff_ffff,
{
    let ghost views = text::parts_view(all@);
    let mut i: usize = 0;
    assert(views.skip(0) =~= views);
    while i < all.len()
        invariant
            i <= all@.len(),
            views == text::parts_view(all@),
            find_signal(views) == find_signal(views.skip(i as int)),
        decreases all@.len() - i,
    {
        let line: Vec<char> = text::trimmed(all[i].as_slice());
        assert(views.skip(i as int)[0] == all@[i as int]@);
        if let Some(rest) = strip_prefix(line.as_slice(), "signal: ") {
            let parts: Vec<Vec<char>> = words_of(rest.as_slice());
            assert(text::parts_view(parts@).len() == parts@.len());
            if parts.len() > 0 {
                assert(parts@[0]@ == text::parts_view(parts@)[0]);
                if let Some(dbm) = parse_i32(parts[0].as_slice()) {
                    return Some(dbm);
                }
            }
        }
        assert(views.skip(i as int).drop_first() =~= views.skip(i + 1));
        i = i + 1;
    }
    assert(views.skip(i as int).len() == 0);
    None
}

/// Network name and signal strength from the link state.
pub fn link_status(link: &str) -> (r: Option<(String, u8)>)
    ensures
        r is Some <==> link_reading(link@) is Some,
        r is Some ==> ((r->0).0@, (r->0).1 as int) == link_reading(link@)->0,
{
    let chars: Vec<char> = text::chars_of(link);
    let start: Vec<char> = text::trimmed_start(chars.as_slice());
    if strip_prefix(start.as_slice(), "Not connected").is_some() {
        return None;
    }
    let all: Vec<Vec<char>> = lines_of(chars.as_slice());
    let name: Vec<char> = match find_in_lines(&all, "SSID: ") {
        Some(name) => name,
        None => return None,
    };
    let percent: i64 = match find_signal_in(&all) {
        Some(dbm) => {
            let scaled: i64 = 2 * (dbm + 100);
            if scaled < 0 {
                0
            } else if scaled > 100 {
                100
            } else {
                scaled
            }
        },
        None => 0,
    };
    Some((text::string_of(name.as_slice()), percent as u8))
}

proof fn lemma_words_not_empty(s: Seq<char>)
    ensures
        s.len() > 0 && !text::white(s.last()) ==> words(s).len() > 0,
    decreases s.len(),
{
    if s.len() > 1 {
        lemma_words_not_empty(s.drop_last());
    }
}

/// White space parts words: those of a text are those in front of it, followed
/// by those behind it.
pub proof fn white_space_parts_words(a: Seq<char>, w: char, b: Seq<char>)
    requires
        text::white(w),
    ensures
        words(a.push(w) + b) == words(a) + words(b),
    decreases b.len(),
{
    let all = a.push(w) + b;
    if b.len() == 0 {
        assert(all =~= a.push(w));
        assert(all.drop_last() =~= a);
        assert(words(all) =~= words(a) + words(b));
    } else {
        let rest = b.drop_last();
        white_space_parts_words(a, w, rest);
        lemma_words_not_empty(rest);
        assert(all.drop_last() =~= a.push(w) + rest);
        assert(all.last() == b.last());
        if b.len() > 1 {
            assert(all[all.len() - 2] == b[b.len() - 2]);
        } else {
            assert(all[all.len() - 2] == w);
            assert(words(rest).len() == 0);
        }
        assert(words(all) =~= words(a) + words(b));
    }
}

/// A text without white space is one word, and white space alone is none.
pub proof fn nothing_else_parts_words(s: Seq<char>)
    ensures
        s.len() > 0 && (forall|i: int| 0 <= i < s.len() ==> !text::white(#[trigger] s[i]))
            ==> words(s) == seq![s],
        (forall|i: int| 0 <= i < s.len() ==> text::white(#[trigger] s[i])) ==> words(s).len() == 0,
    decreases s.len(),
{
    if s.len() > 0 {
        let rest = s.drop_last();
        nothing_else_parts_words(rest);
        assert(forall|i: int| 0 <= i < rest.len() ==> rest[i] == #[trigger] s[i]);
        assert(s.last() == s[s.len() - 1]);
        if s.len() > 1 {
            assert(rest[rest.len() - 1] == s[s.len() - 2]);
        }
        if forall|i: int| 0 <= i < s.len() ==> !text::white(#[trigger] s[i]) {
            assert(!text::white(s[s.len() - 1]));
            assert(rest.push(s.last()) =~= s);
            if s.len() == 1 {
                assert(rest.len() == 0);
                assert(words(rest).len() == 0);
                assert(seq![s.last()] =~= s);
            } else {
                assert(!text::white(s[s.len() - 2]));
                assert(words(rest) == seq![rest]);
            }
            assert(words(s) =~= seq![s]);
        }
        if forall|i: int| 0 <= i < s.len() ==> text::white(#[trigger] s[i]) {
            assert(text::white(s[s.len() - 1]));
        }
    }
}

/// A line ends at its line feed; a carriage return right in front of that belongs
/// to the line ending.
pub proof fn line_feeds_end_lines(a: Seq<char>, b: Seq<char>)
    requires
        !a.contains('\n'),
    ensures
        a.len() == 0 || a.last() != '\r' ==> lines(a.push('\n') + b) == seq![a] + lines(b),
        lines(a.push('\r').push('\n') + b) == seq![a] + lines(b),
        lines(a) == (if a.len() > 0 {
            seq![a]
        } else {
            Seq::empty()
        }),
{
    let with = a.push('\r');
    text::separators_split_a_text(a, '\n', b);
    text::separators_split_a_text(with, '\n', b);
    text::nothing_else_splits_a_text(a, '\n');
    text::lemma_split_not_empty(b, '\n');
    assert(!with.contains('\n')) by {
        if with.contains('\n') {
            let k = choose|k: int| 0 <= k < with.len() && with[k] == '\n';
            if k < a.len() {
                assert(a[k] == '\n');
            }
        }
    }
    text::nothing_else_splits_a_text(with, '\n');
    assert(with.drop_last() =~= a);
    if a.len() == 0 || a.last() != '\r' {
        assert(lines(a.push('\n') + b) =~= seq![a] + lines(b));
    }
    assert(lines(with.push('\n') + b) =~= seq![a] + lines(b));
    assert(lines(a) =~= (if a.len() > 0 {
        seq![a]
    } else {
        Seq::empty()
    }));
}

/// A text has a prefix if and only if it is the prefix followed by what is
/// left.
pub proof fn prefix_and_rest_are_the_text(s: Seq<char>, prefix: Seq<char>, rest: Seq<char>)
    ensures
        after_prefix(s, prefix) == Some(rest) <==> s == prefix + rest,
        after_prefix(s, prefix) is None ==> s != prefix + rest,
{
    if after_prefix(s, prefix) == Some(rest) {
        assert(s =~= s.take(prefix.len() as int) + s.skip(prefix.len() as int));
    }
    if s == prefix + rest {
        assert(s.take(prefix.len() as int) =~= prefix);
        assert(s.skip(prefix.len() as int) =~= rest);
    }
}

/// The numbers among words are read one by one and in order; words that are no
/// numbers are passed over.
pub proof fn numbers_are_read_in_order(a: Seq<Seq<char>>, b: Seq<Seq<char>>, word: Seq<char>)
    ensures
        numbers(a + b) == numbers(a) + numbers(b),
        numbers(seq![word]) == (match text::parsed_number(word, 10, u64::MAX as nat) {
            Some(n) => seq![n],
            None => Seq::empty(),
        }),
    decreases b.len(),
{
    let all = a + b;
    if b.len() == 0 {
        assert(all =~= a);
        assert(numbers(all) =~= numbers(a) + numbers(b));
    } else {
        numbers_are_read_in_order(a, b.drop_last(), word);
        assert(all.drop_last() =~= a + b.drop_last());
        assert(all.last() == b.last());
        assert(numbers(all) =~= numbers(a) + numbers(b));
    }
    assert(seq![word].drop_last() =~= Seq::<Seq<char>>::empty());
    assert(numbers(Seq::<Seq<char>>::empty()) =~= Seq::<nat>::empty());
    assert(numbers(seq![word]) =~= (match text::parsed_number(word, 10, u64::MAX as nat) {
        Some(n) => seq![n],
        None => Seq::empty(),
    }));
}

/// The counters are the numbers behind the word `cpu` that the first line starts
/// with, if there are at least four.
pub proof fn counters_follow_their_label(content: Seq<char>, fields: Seq<Seq<char>>)
    requires
        lines(content).len() > 0,
        words(lines(content)[0]) == seq!["cpu"@] + fields,
    ensures
        cpu_counters(content) is Some <==> numbers(fields).len() >= 4,
        cpu_counters(content) is Some ==> cpu_counters(content)->0 == numbers(fields),
{
    let all = words(lines(content)[0]);
    assert(all.skip(1) =~= fields);
    assert(all[0] == "cpu"@);
}

/// The total is the sum of the counters, in any grouping.
pub proof fn total_adds_up(a: Seq<u64>, b: Seq<u64>, n: u64)
    ensures
        total(a + b) == total(a) + total(b),
        total(seq![n]) == n,
        total(Seq::empty()) == 0,
    decreases b.len(),
{
    if b.len() == 0 {
        assert(a + b =~= a);
    } else {
        assert((a + b).drop_last() =~= a + b.drop_last());
        total_adds_up(a, b.drop_last(), n);
    }
    let one = seq![n];
    assert(one.drop_last() =~= Seq::<u64>::empty());
    assert(one.last() == n);
    assert(total(one) == total(one.drop_last()) + one.last() as nat);
}

/// Idle time and time spent waiting are the fourth and the fifth counter: more of
/// another one changes nothing, and more of these two counts fully.
pub proof fn idle_time_is_idle_and_waiting(nums: Seq<u64>, i: int, n: u64)
    requires
        nums.len() >= 4,
        0 <= i < nums.len(),
    ensures
        i != 3 && i != 4 ==> idle(nums.update(i, n)) == idle(nums),
        i == 3 || i == 4 ==> idle(nums.update(i, n)) - idle(nums) == n - nums[i],
        0 <= idle(nums) <= total(nums),
        (forall|k: int| 0 <= k < nums.len() ==> #[trigger] nums[k] == 0) ==> idle(nums) == 0,
{
    lemma_idle_within_total(nums);
}

/// Whether a line of the memory statistics is about neither value.
pub open spec fn about_other_memory(line: Seq<char>) -> bool {
    after_prefix(line, "MemTotal:"@) is None && after_prefix(line, "MemAvailable:"@) is None
}

proof fn lemma_memory_values(
    all: Seq<Seq<char>>,
    i: int,
    j: int,
    total: nat,
    available: nat,
    n: int,
)
    requires
        0 <= n <= all.len(),
        0 <= i < all.len(),
        0 <= j < all.len(),
        after_prefix(all[i], "MemTotal:"@) is Some,
        first_number(after_prefix(all[i], "MemTotal:"@)->0) == Some(Some(total)),
        after_prefix(all[j], "MemTotal:"@) is None,
        after_prefix(all[j], "MemAvailable:"@) is Some,
        first_number(after_prefix(all[j], "MemAvailable:"@)->0) == Some(Some(available)),
        forall|k: int|
            0 <= k < all.len() && k != i && k != j ==> about_other_memory(#[trigger] all[k]),
    ensures
        meminfo_fold(all.take(n)) == Some(
            (
                if i < n {
                    Some(total)
                } else {
                    None
                },
                if j < n {
                    Some(available)
                } else {
                    None
                },
            ),
        ),
    decreases n,
{
    if n > 0 {
        lemma_memory_values(all, i, j, total, available, n - 1);
        assert(all.take(n).drop_last() =~= all.take(n - 1));
        assert(all.take(n).last() == all[n - 1]);
        if n - 1 != i && n - 1 != j {
            assert(about_other_memory(all[n - 1]));
        }
    } else {
        assert(all.take(0).len() == 0);
    }
}

/// The memory values are those of the lines with their labels, wherever among
/// the lines these are.
pub proof fn memory_is_read_from_its_lines(
    content: Seq<char>,
    i: int,
    j: int,
    total: nat,
    available: nat,
)
    requires
        0 <= i < lines(content).len(),
        0 <= j < lines(content).len(),
        after_prefix(lines(content)[i], "MemTotal:"@) is Some,
        first_number(after_prefix(lines(content)[i], "MemTotal:"@)->0) == Some(Some(total)),
        after_prefix(lines(content)[j], "MemTotal:"@) is None,
        after_prefix(lines(content)[j], "MemAvailable:"@) is Some,
        first_number(after_prefix(lines(content)[j], "MemAvailable:"@)->0) == Some(
            Some(available),
        ),
        forall|k: int|
            0 <= k < lines(content).len() && k != i && k != j ==> about_other_memory(
                #[trigger] lines(content)[k],
            ),
    ensures
        meminfo(content) == Some((total, available)),
{
    let all = lines(content);
    lemma_memory_values(all, i, j, total, available, all.len() as int);
    assert(all.take(all.len() as int) =~= all);
}

/// Without a line for one of the memory values, nothing is read.
pub proof fn memory_needs_both_lines(all: Seq<Seq<char>>)
    ensures
        (forall|k: int|
            0 <= k < all.len() ==> after_prefix(#[trigger] all[k], "MemTotal:"@) is None)
            ==> !(meminfo_fold(all) matches Some((Some(_), _))),
        (forall|k: int|
            0 <= k < all.len() ==> after_prefix(#[trigger] all[k], "MemAvailable:"@) is None)
            ==> !(meminfo_fold(all) matches Some((_, Some(_)))),
    decreases all.len(),
{
    if all.len() > 0 {
        let rest = all.drop_last();
        memory_needs_both_lines(rest);
        assert(forall|k: int| 0 <= k < rest.len() ==> rest[k] == #[trigger] all[k]);
        assert(all.last() == all[all.len() - 1]);
        if forall|k: int|
            0 <= k < all.len() ==> after_prefix(#[trigger] all[k], "MemTotal:"@) is None {
            assert(after_prefix(all[all.len() - 1], "MemTotal:"@) is None);
            assert forall|k: int| 0 <= k < rest.len() implies after_prefix(
                #[trigger] rest[k],
                "MemTotal:"@,
            ) is None by {
                assert(after_prefix(all[k], "MemTotal:"@) is None);
            }
        }
        if forall|k: int|
            0 <= k < all.len() ==> after_prefix(#[trigger] all[k], "MemAvailable:"@) is None {
            assert(after_prefix(all[all.len() - 1], "MemAvailable:"@) is None);
            assert forall|k: int| 0 <= k < rest.len() implies after_prefix(
                #[trigger] rest[k],
                "MemAvailable:"@,
            ) is None by {
                assert(after_prefix(all[k], "MemAvailable:"@) is None);
            }
        }
    }
}

/// A value is the number that the first word behind its label is.
pub proof fn first_words_are_values(word: Seq<char>, w: char, rest: Seq<char>, n: nat)
    requires
        word == text::decimal(n),
        n <= u64::MAX,
        text::white(w),
        forall|i: int| 0 <= i < word.len() ==> !text::white(#[trigger] word[i]),
    ensures
        first_number(word.push(w) + rest) == Some(Some(n)),
{
    text::decimal_parses_back(n, u64::MAX as nat);
    text::decimal_reads_back(n);
    white_space_parts_words(word, w, rest);
    nothing_else_parts_words(word);
    assert(words(word.push(w) + rest)[0] == word);
}

/// The used percentage of the memory is rounded down, and is nothing when all of
/// it is available.
pub proof fn used_memory_is_a_share_of_the_total(total: int, available: int)
    requires
        total > 0,
        available >= 0,
    ensures
        0 <= used_percent(total, available) <= 100,
        available >= total ==> used_percent(total, available) == 0,
        available == 0 ==> used_percent(total, available) == 100,
        available < total ==> used_percent(total, available) * total <= 100 * (total - available)
            < (used_percent(total, available) + 1) * total,
{
    if available < total {
        let scaled = (total - available) * 100;
        let u = used_percent(total, available);
        vstd::arithmetic::div_mod::lemma_fundamental_div_mod(scaled, total);
        vstd::arithmetic::div_mod::lemma_mod_bound(scaled, total);
        assert(u * total == total * u) by (nonlinear_arith);
        assert((u + 1) * total == total * u + total) by (nonlinear_arith);
        vstd::arithmetic::div_mod::lemma_div_pos_is_pos(scaled, total);
        assert(u <= 100) by (nonlinear_arith)
            requires
                total * u <= scaled,
                scaled <= 100 * total,
                total > 0,
        ;
        if available == 0 {
            assert(u == 100) by (nonlinear_arith)
                requires
                    total * u <= 100 * total,
                    100 * total < total * u + total,
                    total > 0,
            ;
        }
    }
}

/// A supply has a reading if its name starts with `BAT` and its capacity is a
/// number that fits. It charges if and only if its status says so, in whatever
/// case.
pub proof fn batteries_tell_their_charge(supply: PowerSupply, rest: Seq<char>, percent: nat)
    requires
        supply.name@ == "BAT"@ + rest,
        supply.capacity is Some,
        text::trim(supply.capacity->0@) == text::decimal(percent),
        percent <= 255,
    ensures
        supply_reading(supply) matches Some(reading) && reading.0 == percent && (reading.1 <==> (
        supply.status is Some && text::lower_all(text::trim(supply.status->0@)) == "charging"@)),
{
    prefix_and_rest_are_the_text(supply.name@, "BAT"@, rest);
    text::decimal_parses_back(percent, 255);
}

/// What is not named like a battery or does not tell its capacity has no
/// reading.
pub proof fn other_supplies_have_no_reading(supply: PowerSupply)
    ensures
        supply_reading(supply) is Some ==> supply.capacity is Some && exists|rest: Seq<char>|
            supply.name@ == #[trigger] ("BAT"@ + rest),
        supply_reading(supply) matches Some(reading) ==> reading.0 <= 255,
{
    if supply_reading(supply) is Some {
        let rest = after_prefix(supply.name@, "BAT"@)->0;
        prefix_and_rest_are_the_text(supply.name@, "BAT"@, rest);
        assert(supply.name@ == "BAT"@ + rest);
    }
}

/// The battery that is shown is the first supply that has a reading.
pub proof fn first_battery_is_shown(supplies: Seq<PowerSupply>, i: int)
    requires
        0 <= i < supplies.len(),
        supply_reading(supplies[i]) is Some,
        forall|j: int| 0 <= j < i ==> supply_reading(#[trigger] supplies[j]) is None,
    ensures
        battery_reading(supplies) == supply_reading(supplies[i]),
    decreases i,
{
    if i > 0 {
        assert(supply_reading(supplies[0]) is None);
        let rest = supplies.drop_first();
        assert forall|j: int| 0 <= j < i - 1 implies supply_reading(#[trigger] rest[j]) is None by {
            assert(supply_reading(supplies[j + 1]) is None);
        }
        first_battery_is_shown(rest, i - 1);
    }
}

/// Without a supply that has a reading there is none.
pub proof fn no_battery_has_no_reading(supplies: Seq<PowerSupply>)
    requires
        forall|j: int| 0 <= j < supplies.len() ==> supply_reading(#[trigger] supplies[j]) is None,
    ensures
        battery_reading(supplies) is None,
    decreases supplies.len(),
{
    if supplies.len() > 0 {
        assert(supply_reading(supplies[0]) is None);
        let rest = supplies.drop_first();
        assert forall|j: int| 0 <= j < rest.len() implies supply_reading(#[trigger] rest[j]) is None
            by {
            assert(supply_reading(supplies[j + 1]) is None);
        }
        no_battery_has_no_reading(rest);
    }
}

/// What is found behind a prefix is that of the first line that has the prefix
/// once trimmed.
pub proof fn first_line_with_the_prefix_is_found(
    all: Seq<Seq<char>>,
    prefix: Seq<char>,
    i: int,
    rest: Seq<char>,
)
    requires
        0 <= i < all.len(),
        text::trim(all[i]) == prefix + rest,
        forall|j: int| 0 <= j < i ==> after_prefix(text::trim(#[trigger] all[j]), prefix) is None,
    ensures
        find_line(all, prefix) == Some(rest),
    decreases i,
{
    if i > 0 {
        assert(after_prefix(text::trim(all[0]), prefix) is None);
        let others = all.drop_first();
        assert forall|j: int| 0 <= j < i - 1 implies after_prefix(
            text::trim(#[trigger] others[j]),
            prefix,
        ) is None by {
            assert(after_prefix(text::trim(all[j + 1]), prefix) is None);
        }
        first_line_with_the_prefix_is_found(others, prefix, i - 1, rest);
    } else {
        prefix_and_rest_are_the_text(text::trim(all[0]), prefix, rest);
    }
}

/// Nothing is found where no line has the prefix.
pub proof fn no_line_with_the_prefix_is_found(all: Seq<Seq<char>>, prefix: Seq<char>)
    requires
        forall|j: int|
            0 <= j < all.len() ==> after_prefix(text::trim(#[trigger] all[j]), prefix) is None,
    ensures
        find_line(all, prefix) is None,
    decreases all.len(),
{
    if all.len() > 0 {
        assert(after_prefix(text::trim(all[0]), prefix) is None);
        let others = all.drop_first();
        assert forall|j: int| 0 <= j < others.len() implies after_prefix(
            text::trim(#[trigger] others[j]),
            prefix,
        ) is None by {
            assert(after_prefix(text::trim(all[j + 1]), prefix) is None);
        }
        no_line_with_the_prefix_is_found(others, prefix);
    }
}

/// A signed number reads back from its decimal digits, with a minus sign in front
/// if it is negative.
pub proof fn signed_numbers_read_back(n: nat)
    ensures
        n <= 0x7fff_ffff ==> parsed_i32(text::decimal(n)) == Some(n as int),
        n > 0x7fff_ffff ==> parsed_i32(text::decimal(n)) is None,
        n <= 0x8000_0000 ==> parsed_i32(seq!['-'] + text::decimal(n)) == Some(-(n as int)),
        n > 0x8000_0000 ==> parsed_i32(seq!['-'] + text::decimal(n)) is None,
{
    let digits = text::decimal(n);
    text::decimal_reads_back(n);
    assert(text::digit_value('-') == 16);
    assert(text::digit_value(digits[0]) < 10);
    assert((seq!['-'] + digits).drop_first() =~= digits);
}

/// The signal strength is that of the first line that gives one.
pub proof fn first_signal_counts(all: Seq<Seq<char>>, i: int)
    requires
        0 <= i < all.len(),
        line_signal(all[i]) is Some,
        forall|j: int| 0 <= j < i ==> line_signal(#[trigger] all[j]) is None,
    ensures
        find_signal(all) == line_signal(all[i]),
    decreases i,
{
    if i > 0 {
        assert(line_signal(all[0]) is None);
        let rest = all.drop_first();
        assert forall|j: int| 0 <= j < i - 1 implies line_signal(#[trigger] rest[j]) is None by {
            assert(line_signal(all[j + 1]) is None);
        }
        first_signal_counts(rest, i - 1);
    }
}

/// Without a line that gives a strength there is none.
pub proof fn no_signal_is_found(all: Seq<Seq<char>>)
    requires
        forall|j: int| 0 <= j < all.len() ==> line_signal(#[trigger] all[j]) is None,
    ensures
        find_signal(all) is None,
    decreases all.len(),
{
    if all.len() > 0 {
        assert(line_signal(all[0]) is None);
        let rest = all.drop_first();
        assert forall|j: int| 0 <= j < rest.len() implies line_signal(#[trigger] rest[j]) is None
            by {
            assert(line_signal(all[j + 1]) is None);
        }
        no_signal_is_found(rest);
    }
}

/// The strength in percent is nothing up to -100 dBm, everything from -50 dBm on,
/// and grows evenly in between.
pub proof fn signal_grows_evenly(dbm: int)
    ensures
        dbm <= -100 ==> signal_percent(dbm) == 0,
        dbm >= -50 ==> signal_percent(dbm) == 100,
        -100 <= dbm < -50 ==> signal_percent(dbm + 1) - signal_percent(dbm) == 2,
{
}

/// A link has a reading if and only if it is connected and has a name. A missing
/// strength counts as none.
pub proof fn links_tell_name_and_strength(link: Seq<char>)
    ensures
        ({
            let off = after_prefix(text::trim_start(link), "Not connected"@) is Some;
            let name = find_line(lines(link), "SSID: "@);
            let signal = find_signal(lines(link));
            &&& link_reading(link) is Some <==> !off && name is Some
            &&& link_reading(link) matches Some(reading) ==> {
                &&& Some(reading.0) == name
                &&& signal is None ==> reading.1 == 0
                &&& signal matches Some(dbm) ==> (dbm >= -50 ==> reading.1 == 100) && (-100 <= dbm
                    <= -50 ==> reading.1 == 200 + 2 * dbm) && (dbm <= -100 ==> reading.1 == 0)
            }
        }),
{
}

/// A line gives a strength if and only if it has the label once trimmed and its
/// first word behind that is a number.
pub proof fn lines_give_the_strength_behind_the_label(line: Seq<char>, rest: Seq<char>)
    ensures
        text::trim(line) == "signal: "@ + rest && words(rest).len() > 0 ==> line_signal(line)
            == parsed_i32(words(rest)[0]),
        text::trim(line) == "signal: "@ + rest && words(rest).len() == 0 ==> line_signal(
            line,
        ) is None,
        after_prefix(text::trim(line), "signal: "@) is None ==> line_signal(line) is None,
{
    prefix_and_rest_are_the_text(text::trim(line), "signal: "@, rest);
}

} // verus!
