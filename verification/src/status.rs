//! The status text of the bar, refreshed once a second.

use crate::text;
use vstd::prelude::*;

verus! {

/// What `str::to_uppercase` makes of a text.
pub uninterp spec fn upper_text(s: Seq<char>) -> Seq<char>;

/// Whether a text is ASCII.
pub open spec fn is_ascii(s: Seq<char>) -> bool {
    forall|i: int| 0 <= i < s.len() ==> (#[trigger] s[i]) as u32 <= 0x7f
}

/// `s` with its ASCII letters made capital.
pub open spec fn capitals(s: Seq<char>) -> Seq<char> {
    Seq::new(
        s.len(),
        |i: int|
            if 0x61 <= s[i] as u32 <= 0x7a {
                ((s[i] as u32 - 32) as u8) as char
            } else {
                s[i]
            },
    )
}

/// Calls `str::to_uppercase`. Its result depends on the text alone, and of an
/// ASCII text it makes the letters `a` to `z` capital and keeps the rest; the
/// Unicode case tables for other texts are left unsaid.
#[verifier::external_body]
fn to_upper(s: &str) -> (r: String)
    ensures
        r@ == upper_text(s@),
        is_ascii(s@) ==> r@ == capitals(s@),
{
    s.to_uppercase()
}

/// Time between two refreshes, in milliseconds.
pub const TICK_MS: u64 = 1000;

/// Readings for a refresh.
#[derive(Debug)]
pub struct Readings {
    /// Time and date with a space between them, if they could be had.
    pub clock: Option<String>,
    /// Total and idle processor time.
    pub cpu: Option<(u64, u64)>,
    /// Memory in use, in percent.
    pub ram: Option<u64>,
    /// Charge in percent, and whether the battery charges.
    pub battery: Option<(u8, bool)>,
    /// Network name and signal strength in percent.
    pub network: Option<(String, u8)>,
}

/// The texts that the bar shows on its right.
#[derive(Debug)]
pub struct Bar {
    pub last_tick: Option<u64>,
    pub time_text: String,
    pub date_text: String,
    pub cpu_text: String,
    pub ram_text: String,
    pub bat_text: String,
    pub net_text: String,
    pub prev_cpu: Option<(u64, u64)>,
}

impl Default for Bar {
    fn default() -> (b: Bar)
        ensures
            b.last_tick is None,
            b.prev_cpu is None,
            b.time_text@.len() == 0,
            b.date_text@.len() == 0,
            b.cpu_text@.len() == 0,
            b.ram_text@.len() == 0,
            b.bat_text@.len() == 0,
            b.net_text@.len() == 0,
    {
        Bar {
            last_tick: None,
            time_text: String::new(),
            date_text: String::new(),
            cpu_text: String::new(),
            ram_text: String::new(),
            bat_text: String::new(),
            net_text: String::new(),
            prev_cpu: None,
        }
    }
}

/// Where the first space of a text is.
pub open spec fn first_space(s: Seq<char>, i: int) -> bool {
    &&& 0 <= i < s.len()
    &&& s[i] == ' '
    &&& forall|j: int| 0 <= j < i ==> s[j] != ' '
}

/// Processor load between two readings, in percent; unknown when no time has
/// passed.
pub open spec fn cpu_percent(prev: (u64, u64), now: (u64, u64)) -> Option<int> {
    let total = if now.0 > prev.0 {
        now.0 - prev.0
    } else {
        0
    };
    let idle = if now.1 > prev.1 {
        now.1 - prev.1
    } else {
        0
    };
    if total == 0 {
        None
    } else {
        let scaled = if idle * 100 > u64::MAX {
            u64::MAX as int
        } else {
            idle * 100
        };
        let share = scaled / total;
        Some(
            if share > 100 {
                0
            } else {
                100 - share
            },
        )
    }
}

/// A percentage as text.
pub open spec fn percent_text(n: nat) -> Seq<char> {
    text::decimal(n) + "%"@
}

/// The battery text.
pub open spec fn battery_text(reading: Option<(u8, bool)>) -> Seq<char> {
    match reading {
        Some((percent, true)) => text::decimal(percent as nat) + "%+"@,
        Some((percent, false)) => percent_text(percent as nat),
        None => "--"@,
    }
}

/// The network text.
pub open spec fn network_text(reading: Option<(String, u8)>) -> Seq<char> {
    match reading {
        Some((name, percent)) => name@ + " "@ + percent_text(percent as nat),
        None => "--"@,
    }
}

/// Writes a percentage.
fn write_percent(n: u64) -> (s: String)
    ensures
        s@ == percent_text(n as nat),
{
    let mut s: String = text::to_decimal(n);
    text::append(&mut s, "%");
    s
}

/// The load as text, where it is known.
fn load_text(prev: (u64, u64), now: (u64, u64)) -> (r: Option<String>)
    ensures
        r is Some <==> cpu_percent(prev, now) is Some,
        r is Some ==> r->0@ == percent_text(cpu_percent(prev, now)->0 as nat),
{
    let total: u64 = if now.0 > prev.0 { now.0 - prev.0 } else { 0 };
    let idle: u64 = if now.1 > prev.1 { now.1 - prev.1 } else { 0 };
    if total == 0 {
        return None;
    }
    let scaled: u64 = if idle > u64::MAX / 100 { u64::MAX } else { idle * 100 };
    let share: u64 = scaled / total;
    let load: u64 = if share > 100 { 0 } else { 100 - share };
    Some(write_percent(load))
}

/// The two sides of the first space of the trimmed text.
pub open spec fn clock_parts(s: Seq<char>, time: Seq<char>, date: Seq<char>) -> bool {
    exists|i: int| #[trigger]
        first_space(text::trim(s), i) && time == text::trim(s).take(i) && date == text::trim(
            s,
        ).skip(i + 1)
}

/// Whether the trimmed text has a space.
pub open spec fn has_clock(s: Seq<char>) -> bool {
    exists|i: int| first_space(text::trim(s), i)
}

fn split_clock(s: &str) -> (r: Option<(String, String)>)
    ensures
        r is Some <==> has_clock(s@),
        r is Some ==> clock_parts(s@, (r->0).0@, (r->0).1@),
{
    let chars: Vec<char> = text::chars_of(s);
    let t: Vec<char> = text::trimmed(chars.as_slice());
    let mut i: usize = 0;
    while i < t.len()
        invariant
            i <= t@.len(),
            t@ == text::trim(s@),
            forall|k: int| 0 <= k < i ==> t@[k] != ' ',
        decreases t@.len() - i,
    {
        if t[i] == ' ' {
            let time: Vec<char> = crate::sysinfo::copy_range(t.as_slice(), 0, i);
            let date: Vec<char> = crate::sysinfo::copy_range(t.as_slice(), i + 1, t.len());
            assert(first_space(text::trim(s@), i as int));
            assert(time@ =~= t@.take(i as int));
            assert(date@ =~= t@.skip(i + 1));
            return Some((text::string_of(time.as_slice()), text::string_of(date.as_slice())));
        }
        i = i + 1;
    }
    None
}

/// What a refresh makes of the texts. Readings that could not be had leave the
/// clock, the load and the memory text as they were; the battery and the
/// network are shown as unknown.
pub open spec fn refreshed(before: Bar, now: u64, readings: Readings, after: Bar) -> bool {
    let clock = readings.clock is Some && has_clock(readings.clock->0@);
    if !before.is_due(now) {
        after == before
    } else {
        &&& after.last_tick == Some(now)
        &&& clock ==> clock_parts(readings.clock->0@, after.time_text@, after.date_text@)
        &&& !clock ==> after.time_text == before.time_text && after.date_text == before.date_text
        &&& after.prev_cpu == (if readings.cpu is Some {
            readings.cpu
        } else {
            before.prev_cpu
        })
        &&& after.cpu_text@ == (if readings.cpu is Some && before.prev_cpu is Some && cpu_percent(
            before.prev_cpu->0,
            readings.cpu->0,
        ) is Some {
            percent_text(cpu_percent(before.prev_cpu->0, readings.cpu->0)->0 as nat)
        } else {
            before.cpu_text@
        })
        &&& after.ram_text@ == (match readings.ram {
            Some(percent) => percent_text(percent as nat),
            None => before.ram_text@,
        })
        &&& after.bat_text@ == battery_text(readings.battery)
        &&& after.net_text@ == network_text(readings.network)
    }
}

impl Bar {
    /// Whether a second has passed since the last refresh.
    pub open spec fn is_due(self, now: u64) -> bool {
        match self.last_tick {
            Some(last) => now - last >= TICK_MS,
            None => true,
        }
    }

    /// Whether a second has passed since the last refresh.
    pub fn due(&self, now: u64) -> (r: bool)
        ensures
            r == self.is_due(now),
    {
        match self.last_tick {
            Some(last) => now >= last && now - last >= TICK_MS,
            None => true,
        }
    }

    /// Refreshes the texts, unless the last refresh is less than a second ago.
    /// Readings that could not be had leave the clock, the load and the memory
    /// text as they were; the battery and the network are shown as unknown.
    pub fn tick(&mut self, now: u64, readings: Readings)
        ensures
            refreshed(*old(self), now, readings, *final(self)),
    {
        if !self.due(now) {
            return;
        }
        self.last_tick = Some(now);
        if let Some(clock) = &readings.clock {
            if let Some((time, date)) = split_clock(clock.as_str()) {
                self.time_text = time;
                self.date_text = date;
            }
        }
        if let Some(cpu) = readings.cpu {
            if let Some(prev) = self.prev_cpu {
                if let Some(load) = load_text(prev, cpu) {
                    self.cpu_text = load;
                }
            }
            self.prev_cpu = Some(cpu);
        }
        if let Some(percent) = readings.ram {
            self.ram_text = write_percent(percent);
        }
        let mut battery: String = String::new();
        match readings.battery {
            Some((percent, charging)) => {
                battery = text::to_decimal(percent as u64);
                if charging {
                    text::append(&mut battery, "%+");
                } else {
                    text::append(&mut battery, "%");
                }
            },
            None => {
                text::append(&mut battery, "--");
                assert(battery@ =~= "--"@);
            },
        }
        self.bat_text = battery;
        let mut network: String = String::new();
        match &readings.network {
            Some((name, percent)) => {
                text::append(&mut network, name.as_str());
                text::append(&mut network, " ");
                let strength: String = write_percent(*percent as u64);
                text::append(&mut network, strength.as_str());
                assert(network@ =~= name@ + " "@ + percent_text(*percent as nat));
            },
            None => {
                text::append(&mut network, "--");
                assert(network@ =~= "--"@);
            },
        }
        self.net_text = network;
    }

    /// The texts in a row, with labels.
    pub open spec fn spec_line(self) -> Seq<char> {
        "CPU: "@ + self.cpu_text@ + " | RAM: "@ + self.ram_text@ + " | BAT: "@ + self.bat_text@
            + " | NETWORK: "@ + self.net_text@ + " | "@ + self.time_text@ + " - "@
            + self.date_text@
    }

    /// The texts in a row, with labels.
    pub fn status_line(&self) -> (s: String)
        ensures
            s@ == self.spec_line(),
    {
        let mut s: String = String::new();
        text::append(&mut s, "CPU: ");
        text::append(&mut s, self.cpu_text.as_str());
        text::append(&mut s, " | RAM: ");
        text::append(&mut s, self.ram_text.as_str());
        text::append(&mut s, " | BAT: ");
        text::append(&mut s, self.bat_text.as_str());
        text::append(&mut s, " | NETWORK: ");
        text::append(&mut s, self.net_text.as_str());
        text::append(&mut s, " | ");
        text::append(&mut s, self.time_text.as_str());
        text::append(&mut s, " - ");
        text::append(&mut s, self.date_text.as_str());
        assert(s@ =~= self.spec_line());
        s
    }

    /// The text that the bar shows: the line in capitals, since the bar has no
    /// small letters.
    pub fn status_text(&self) -> (s: String)
        ensures
            s@ == upper_text(self.spec_line()),
            is_ascii(self.spec_line()) ==> s@ == capitals(self.spec_line()),
    {
        let line: String = self.status_line();
        to_upper(line.as_str())
    }
}

/// Two refreshes at least a second apart show the share of the time between
/// their readings that the processor was busy. Without a battery and without a
/// network the line says so.
pub proof fn second_refresh_shows_the_load(
    start: Bar,
    first: Readings,
    middle: Bar,
    second: Readings,
    end: Bar,
    earlier: u64,
    now: u64,
    cpu_before: (u64, u64),
    cpu_now: (u64, u64),
)
    requires
        start.is_due(earlier),
        refreshed(start, earlier, first, middle),
        now - earlier >= TICK_MS,
        refreshed(middle, now, second, end),
        first.cpu == Some(cpu_before),
        second.cpu == Some(cpu_now),
        cpu_before.0 < cpu_now.0,
        cpu_before.1 <= cpu_now.1,
        100 * (cpu_now.1 - cpu_before.1) <= u64::MAX,
        cpu_now.1 - cpu_before.1 <= cpu_now.0 - cpu_before.0,
        second.battery is None,
        second.network is None,
    ensures
        ({
            let total = cpu_now.0 - cpu_before.0;
            let idle = cpu_now.1 - cpu_before.1;
            &&& 0 <= 100 - 100 * idle / total <= 100
            &&& end.spec_line() == "CPU: "@ + percent_text((100 - 100 * idle / total) as nat)
                + " | RAM: "@ + end.ram_text@ + " | BAT: "@ + "--"@ + " | NETWORK: "@ + "--"@
                + " | "@ + end.time_text@ + " - "@ + end.date_text@
        }),
{
    let total = cpu_now.0 - cpu_before.0;
    let idle = cpu_now.1 - cpu_before.1;
    vstd::arithmetic::div_mod::lemma_div_is_ordered(100 * idle, 100 * total, total);
    vstd::arithmetic::div_mod::lemma_div_multiples_vanish(100, total);
    vstd::arithmetic::div_mod::lemma_div_is_ordered(0, 100 * idle, total);
    vstd::arithmetic::div_mod::lemma_div_of0(total);
    assert(idle * 100 == 100 * idle);
    assert(total * 100 == 100 * total);
    assert(cpu_percent(cpu_before, cpu_now) == Some(100 - 100 * idle / total));
}

/// The load is known once time has passed, and lies between none and all of it.
/// What is not load is the share of the time that the processor was idle,
/// rounded down to whole percents.
pub proof fn load_is_the_rest_of_the_idle_share(prev: (u64, u64), now: (u64, u64))
    ensures
        cpu_percent(prev, now) is Some <==> now.0 > prev.0,
        cpu_percent(prev, now) matches Some(load) ==> {
            let total = now.0 - prev.0;
            let idle = now.1 - prev.1;
            &&& 0 <= load <= 100
            &&& idle <= 0 ==> load == 100
            &&& 0 <= idle <= total && 100 * idle <= u64::MAX ==> total * (100 - load) <= 100 * idle
                < total * (101 - load)
        },
{
    if now.0 > prev.0 {
        let total = now.0 - prev.0;
        let idle = now.1 - prev.1;
        let load = cpu_percent(prev, now)->0;
        if idle <= 0 {
            vstd::arithmetic::div_mod::lemma_div_of0(total);
        } else {
            let scaled = if idle * 100 > u64::MAX {
                u64::MAX as int
            } else {
                idle * 100
            };
            let share = scaled / total;
            vstd::arithmetic::div_mod::lemma_div_pos_is_pos(scaled, total);
            if idle <= total && 100 * idle <= u64::MAX {
                assert(scaled == 100 * idle);
                vstd::arithmetic::div_mod::lemma_fundamental_div_mod(scaled, total);
                vstd::arithmetic::div_mod::lemma_mod_bound(scaled, total);
                assert(share <= 100) by (nonlinear_arith)
                    requires
                        total * share <= scaled,
                        scaled <= 100 * total,
                        total > 0,
                ;
                assert(total * (100 - load) == total * share);
                assert(total * (101 - load) == total * share + total) by (nonlinear_arith)
                    requires
                        100 - load == share,
                ;
            }
        }
    }
}

/// The more of the time the processor is idle, the lower is the load.
pub proof fn idle_time_lowers_the_load(prev: (u64, u64), now: (u64, u64), later: (u64, u64))
    requires
        prev.0 < now.0,
        now.0 == later.0,
        now.1 <= later.1,
    ensures
        cpu_percent(prev, later)->0 <= cpu_percent(prev, now)->0,
{
    let total = now.0 - prev.0;
    let few = if now.1 > prev.1 {
        now.1 - prev.1
    } else {
        0
    };
    let many = if later.1 > prev.1 {
        later.1 - prev.1
    } else {
        0
    };
    let a = if few * 100 > u64::MAX {
        u64::MAX as int
    } else {
        few * 100
    };
    let b = if many * 100 > u64::MAX {
        u64::MAX as int
    } else {
        many * 100
    };
    vstd::arithmetic::div_mod::lemma_div_is_ordered(a, b, total);
}

/// The time and the date put together again, with a space between them, are the
/// trimmed reading of the clock. The time has no space in it.
pub proof fn clock_is_split_at_its_first_space(s: Seq<char>, time: Seq<char>, date: Seq<char>)
    requires
        clock_parts(s, time, date),
    ensures
        time + seq![' '] + date == text::trim(s),
        !time.contains(' '),
{
    let t = text::trim(s);
    let i = choose|i: int| #[trigger]
        first_space(t, i) && time == t.take(i) && date == t.skip(i + 1);
    assert(time + seq![' '] + date =~= t);
    if time.contains(' ') {
        let k = choose|k: int| 0 <= k < time.len() && time[k] == ' ';
        assert(t[k] == ' ');
    }
}

/// A percentage ends with its sign. A battery that charges has a plus behind
/// the text that it has otherwise, and a network has its name in front of its
/// strength.
pub proof fn readings_are_written_with_their_signs(percent: u8, name: String)
    ensures
        percent_text(percent as nat).last() == '%',
        percent_text(percent as nat).drop_last() == text::decimal(percent as nat),
        battery_text(Some((percent, true))) == battery_text(Some((percent, false))).push('+'),
        battery_text(Some((percent, false))) == percent_text(percent as nat),
        network_text(Some((name, percent))) == name@.push(' ') + percent_text(percent as nat),
        battery_text(None) == seq!['-', '-'],
        network_text(None) == seq!['-', '-'],
{
    reveal_strlit("%");
    reveal_strlit("%+");
    reveal_strlit(" ");
    reveal_strlit("--");
    assert(percent_text(percent as nat).drop_last() =~= text::decimal(percent as nat));
    assert(battery_text(Some((percent, true))) =~= battery_text(Some((percent, false))).push('+'));
    assert(network_text(Some((name, percent))) =~= name@.push(' ') + percent_text(percent as nat));
    assert(battery_text(None) =~= seq!['-', '-']);
    assert(network_text(None) =~= seq!['-', '-']);
}

/// A refresh that is due shows every reading in its own place.
pub proof fn refresh_shows_the_readings(
    before: Bar,
    now: u64,
    readings: Readings,
    after: Bar,
    ram: u64,
    percent: u8,
    charging: bool,
)
    requires
        before.is_due(now),
        refreshed(before, now, readings, after),
        readings.ram == Some(ram),
        readings.battery == Some((percent, charging)),
        readings.network is Some,
    ensures
        after.ram_text@ == text::decimal(ram as nat).push('%'),
        charging ==> after.bat_text@ == text::decimal(percent as nat).push('%').push('+'),
        !charging ==> after.bat_text@ == text::decimal(percent as nat).push('%'),
        after.net_text@ == (readings.network->0).0@.push(' ') + text::decimal(
            (readings.network->0).1 as nat,
        ).push('%'),
        !after.is_due(now),
        now + 1000 <= u64::MAX ==> after.is_due((now + 1000) as u64) && !after.is_due(
            (now + 999) as u64,
        ),
{
    reveal_strlit("%");
    reveal_strlit("%+");
    reveal_strlit(" ");
    assert(after.ram_text@ =~= text::decimal(ram as nat).push('%'));
    if charging {
        assert(after.bat_text@ =~= text::decimal(percent as nat).push('%').push('+'));
    } else {
        assert(after.bat_text@ =~= text::decimal(percent as nat).push('%'));
    }
    assert(after.net_text@ =~= (readings.network->0).0@.push(' ') + text::decimal(
        (readings.network->0).1 as nat,
    ).push('%'));
}

/// In capitals, no small ASCII letter is left, every letter becomes the one that
/// is as far behind `A` as it was behind `a`, and all else stays.
pub proof fn capitals_stand_for_their_letters(s: Seq<char>, i: int)
    requires
        0 <= i < s.len(),
    ensures
        capitals(s).len() == s.len(),
        ({
            let was = s[i] as u32;
            let is = capitals(s)[i] as u32;
            &&& 'a' as u32 <= was <= 'z' as u32 ==> is - 'A' as u32 == was - 'a' as u32
            &&& !('a' as u32 <= was <= 'z' as u32) ==> capitals(s)[i] == s[i]
            &&& !('a' as u32 <= is <= 'z' as u32)
        }),
{
}

/// The first refresh is due at once, and every other one a second after the one
/// before it.
pub proof fn refreshes_come_once_a_second(bar: Bar, now: u64)
    ensures
        bar.last_tick is None ==> bar.is_due(now),
        bar.last_tick matches Some(last) ==> (bar.is_due(now) <==> now >= last + 1000),
{
}

} // verus!
