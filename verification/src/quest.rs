//! The clock, and the tiny quest of the day.

use vstd::prelude::*;

verus! {

/// How many quests there are.
pub const QUEST_COUNT: usize = 8;

/// How many seconds a day has.
pub const DAY: u64 = 86_400;

/// `SystemTime::elapsed` of the standard library, on the Unix epoch: the time
/// since then in whole seconds, as `Duration::as_secs` gives it, or nothing where
/// the clock stands before the epoch. The reading is the clock's alone, so
/// nothing is claimed of it.
#[verifier::external_body]
fn seconds_since_epoch() -> (r: Option<u64>) {
    std::time::UNIX_EPOCH.elapsed().ok().map(|elapsed| elapsed.as_secs())
}

/// The timestamp for a reading of the clock: the seconds since the epoch, or
/// zero where the clock stands before it.
pub fn timestamp(reading: Option<u64>) -> (r: u64)
    ensures
        r == match reading {
            Some(seconds) => seconds,
            None => 0,
        },
{
    match reading {
        Some(seconds) => seconds,
        None => 0,
    }
}

/// Tells whether a timestamp is one that the clock gives when it is read: the
/// seconds of a reading, or zero for a reading that stands before the epoch.
/// Nothing but reading the clock shows this of a timestamp.
pub closed spec fn clock_gives(ts: u64) -> bool {
    ||| call_ensures(seconds_since_epoch, (), Some(ts))
    ||| ts == 0 && call_ensures(seconds_since_epoch, (), None)
}

/// The timestamp of this moment, as the clock gives it.
pub fn now() -> (r: u64)
    ensures
        clock_gives(r),
{
    timestamp(seconds_since_epoch())
}

/// The quest of the given number.
pub open spec fn quest(i: int) -> Seq<char> {
    match i as u8 {
        0 => "Send one sincere compliment"@,
        1 => "Drink water like you mean it"@,
        2 => "Take a ten minute no-phone walk"@,
        3 => "Play one song and move around"@,
        4 => "Text someone a tiny thank-you"@,
        5 => "Put one annoying thing back where it belongs"@,
        6 => "Look outside until you notice three colors"@,
        _ => "Write one sentence you want to remember"@,
    }
}

/// The quest of the day on which the given moment lies: each day has the next
/// one, and after the last they start over.
pub open spec fn quest_at(ts: u64) -> Seq<char> {
    quest((ts / DAY) as int % QUEST_COUNT as int)
}

/// The quest of the day on which the given moment lies.
pub fn quest_for(ts: u64) -> (r: &'static str)
    ensures
        r@ == quest_at(ts),
{
    let day: u64 = ts / DAY;
    let i: usize = day as usize % QUEST_COUNT;
    assert((day as usize) % 8 == day % 8) by (bit_vector);
    match i {
        0 => "Send one sincere compliment",
        1 => "Drink water like you mean it",
        2 => "Take a ten minute no-phone walk",
        3 => "Play one song and move around",
        4 => "Text someone a tiny thank-you",
        5 => "Put one annoying thing back where it belongs",
        6 => "Look outside until you notice three colors",
        _ => "Write one sentence you want to remember",
    }
}

/// The quest of today, as the clock gives today.
pub fn quest_for_day() -> (r: &'static str)
    ensures
        exists|ts: u64| clock_gives(ts) && r@ == #[trigger] quest_at(ts),
{
    let ts: u64 = now();
    let quest: &'static str = quest_for(ts);
    assert(clock_gives(ts) && quest@ == quest_at(ts));
    quest
}

// ---------------------------------------------------------------------------
// Laws
// ---------------------------------------------------------------------------

/// The quest stays the same for the whole day.
pub proof fn law_one_quest_a_day(ts1: u64, ts2: u64)
    requires
        ts1 / DAY == ts2 / DAY,
    ensures
        quest_at(ts1) == quest_at(ts2),
{
}

/// The next day has the next quest, and after the last quest the first.
pub proof fn law_quests_come_round(ts: u64)
    requires
        ts + DAY <= u64::MAX,
    ensures
        exists|i: int|
            0 <= i < QUEST_COUNT && quest_at(ts) == #[trigger] quest(i) && quest_at(
                (ts + DAY) as u64,
            ) == quest((i + 1) % QUEST_COUNT as int),
{
    let i = (ts / DAY) as int % QUEST_COUNT as int;
    assert((ts + DAY) as u64 / DAY == ts / DAY + 1);
    assert(quest_at(ts) == quest(i));
}

/// The quests come round every eight days, counted in seconds from the epoch:
/// the quest of any moment is that of the same second in the first eight days.
pub proof fn law_quests_repeat(ts: u64)
    ensures
        quest_at(ts) == quest_at((ts % 691_200) as u64),
{
    let d = (ts / DAY) as int;
    let e = ((ts % 691_200) as u64 / DAY) as int;
    assert(d == 8 * (ts as int / 691_200) + e);
    assert(d % 8 == e % 8);
}

/// Two moments have the same quest only if their days lie a multiple of eight
/// days apart.
pub proof fn law_quests_differ(ts1: u64, ts2: u64)
    requires
        quest_at(ts1) == quest_at(ts2),
    ensures
        (ts1 as int / 86_400 - ts2 as int / 86_400) % 8 == 0,
{
    reveal_strlit("Send one sincere compliment");
    reveal_strlit("Drink water like you mean it");
    reveal_strlit("Take a ten minute no-phone walk");
    reveal_strlit("Play one song and move around");
    reveal_strlit("Text someone a tiny thank-you");
    reveal_strlit("Put one annoying thing back where it belongs");
    reveal_strlit("Look outside until you notice three colors");
    reveal_strlit("Write one sentence you want to remember");
    let i = (ts1 / DAY) as int % 8;
    let j = (ts2 / DAY) as int % 8;
    assert(quest(i) == quest(j));
    assert("Send one sincere compliment"@[1] == 'e');
    assert("Drink water like you mean it"@[1] == 'r');
    assert("Take a ten minute no-phone walk"@[1] == 'a');
    assert("Play one song and move around"@[1] == 'l');
    assert("Text someone a tiny thank-you"@[1] == 'e');
    assert("Put one annoying thing back where it belongs"@[1] == 'u');
    assert("Look outside until you notice three colors"@[1] == 'o');
    assert("Write one sentence you want to remember"@[1] == 'r');
    assert("Send one sincere compliment"@[0] == 'S');
    assert("Text someone a tiny thank-you"@[0] == 'T');
    assert("Drink water like you mean it"@[0] == 'D');
    assert("Write one sentence you want to remember"@[0] == 'W');
    assert(i == j);
}

/// A quest can stand in the page as it is: it holds no character that HTML
/// gives a meaning.
pub proof fn law_quests_are_inert(i: int, k: int)
    requires
        0 <= i < QUEST_COUNT,
        0 <= k < quest(i).len(),
    ensures
        quest(i)[k] != '&',
        quest(i)[k] != '<',
        quest(i)[k] != '>',
        quest(i)[k] != '"',
{
    reveal_strlit("Send one sincere compliment");
    reveal_strlit("Drink water like you mean it");
    reveal_strlit("Take a ten minute no-phone walk");
    reveal_strlit("Play one song and move around");
    reveal_strlit("Text someone a tiny thank-you");
    reveal_strlit("Put one annoying thing back where it belongs");
    reveal_strlit("Look outside until you notice three colors");
    reveal_strlit("Write one sentence you want to remember");
}

} // verus!
