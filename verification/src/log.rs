//! The combat log: the last few messages, oldest first.

use crate::entity::CombatResult;
use crate::player::Player;
use crate::utils::text::{decimal, push_decimal};
use chrono::Timelike;
use vstd::prelude::*;
use vstd::string::StringExecFns;

verus! {

/// A log that keeps the newest `max_size` messages.
pub struct Log {
    contents: Vec<String>,
    max_size: usize,
    front: usize,
}

/// The messages of a ring whose oldest entry is at `front`, oldest first.
pub open spec fn unrolled(ring: Seq<Seq<char>>, front: int) -> Seq<Seq<char>> {
    ring.subrange(front, ring.len() as int) + ring.subrange(0, front)
}

/// The log after one more message: the oldest message leaves when the log
/// is full.
pub open spec fn with_message(log: Seq<Seq<char>>, max_size: usize, msg: Seq<char>) -> Seq<
    Seq<char>,
> {
    if log.len() < max_size {
        log.push(msg)
    } else {
        log.drop_first().push(msg)
    }
}

/// The newest `n` messages of a log, or all if there are fewer.
pub open spec fn newest(log: Seq<Seq<char>>, n: usize) -> Seq<Seq<char>> {
    if n >= log.len() {
        log
    } else {
        log.subrange(log.len() - n, log.len() as int)
    }
}

/// The line the log keeps of one blow: the time of day, who struck, whether
/// the target survived, and the target's name.
pub open spec fn combat_text(
    hour: u32,
    minute: u32,
    second: u32,
    actor: Seq<char>,
    target_alive: bool,
    target_name: Seq<char>,
) -> Seq<char> {
    decimal(hour as nat) + ":"@ + decimal(minute as nat) + ":"@ + decimal(second as nat) + ": "@
        + actor + (if target_alive {
        " attacked "@
    } else {
        " killed "@
    }) + target_name
}

/// Whether the three numbers are a time of day.
pub open spec fn time_fits(time: (u32, u32, u32)) -> bool {
    time.0 < 24 && time.1 < 60 && time.2 < 60
}

/// The log after the blows of `actor` that `reports` tells of were logged,
/// one after the other, at the times `times`. A report says whether the
/// target survived, and the target's name.
pub open spec fn with_reports(
    log: Seq<Seq<char>>,
    max_size: usize,
    actor: Seq<char>,
    reports: Seq<(bool, Seq<char>)>,
    times: Seq<(u32, u32, u32)>,
) -> Seq<Seq<char>>
    decreases reports.len(),
{
    if reports.len() == 0 {
        log
    } else {
        with_message(
            with_reports(log, max_size, actor, reports.drop_last(), times.drop_last()),
            max_size,
            combat_text(
                times.last().0,
                times.last().1,
                times.last().2,
                actor,
                reports.last().0,
                reports.last().1,
            ),
        )
    }
}

/// Whether `after` is the log `before` with the blows of `reports` logged at
/// some times of day.
pub open spec fn reports_logged(
    before: Seq<Seq<char>>,
    after: Seq<Seq<char>>,
    max_size: usize,
    actor: Seq<char>,
    reports: Seq<(bool, Seq<char>)>,
) -> bool {
    exists|times: Seq<(u32, u32, u32)>|
        {
            &&& times.len() == reports.len()
            &&& forall|k: int| 0 <= k < times.len() ==> time_fits(#[trigger] times[k])
            &&& after == #[trigger] with_reports(before, max_size, actor, reports, times)
        }
}

/// Reads the local time of day, by a call of chrono's `Local::now` and of
/// `hour`, `minute` and `second` on what it returns. The contract only claims
/// the ranges that chrono documents for the three numbers.
#[verifier::external_body]
fn local_time_of_day() -> (time: (u32, u32, u32))
    ensures
        time.0 < 24,
        time.1 < 60,
        time.2 < 60,
{
    let now = chrono::Local::now();
    (now.hour(), now.minute(), now.second())
}

/// Writes the line for one blow.
pub fn combat_message(
    hour: u32,
    minute: u32,
    second: u32,
    actor: &str,
    combat_results: &CombatResult,
) -> (msg: String)
    ensures
        msg@ == combat_text(
            hour,
            minute,
            second,
            actor@,
            combat_results.target_alive,
            combat_results.target_name@,
        ),
{
    let mut msg = String::new();
    assert(msg@ + decimal(hour as nat) =~= decimal(hour as nat));
    push_decimal(&mut msg, hour as usize);
    msg.append(":");
    push_decimal(&mut msg, minute as usize);
    msg.append(":");
    push_decimal(&mut msg, second as usize);
    msg.append(": ");
    msg.append(actor);
    if combat_results.target_alive {
        msg.append(" attacked ");
    } else {
        msg.append(" killed ");
    }
    msg.append(combat_results.target_name.as_str());
    msg
}

impl View for Log {
    type V = Seq<Seq<char>>;

    /// The messages the log holds, oldest first.
    closed spec fn view(&self) -> Seq<Seq<char>> {
        unrolled(self.ring(), self.front as int)
    }
}

impl Log {
    closed spec fn ring(&self) -> Seq<Seq<char>> {
        Seq::new(self.contents@.len(), |i: int| self.contents@[i]@)
    }

    /// The number of messages the log keeps.
    pub closed spec fn spec_max_size(&self) -> usize {
        self.max_size
    }

    /// The log can take a message, and holds no more than it keeps.
    pub closed spec fn wf(&self) -> bool {
        &&& self.max_size > 0
        &&& self.contents@.len() <= self.max_size
        &&& self.front < self.max_size
        &&& self.contents@.len() < self.max_size ==> self.front == 0
    }

    /// A log that is in order keeps at least one message, and holds no more
    /// messages than it keeps.
    pub proof fn lemma_bounded(&self)
        requires
            self.wf(),
        ensures
            self.spec_max_size() > 0,
            self@.len() <= self.spec_max_size(),
    {
    }

    pub fn new(max_size: usize) -> (log: Log)
        requires
            max_size > 0,
        ensures
            log.wf(),
            log@ == Seq::<Seq<char>>::empty(),
            log.spec_max_size() == max_size,
    {
        let log = Log { contents: Vec::new(), max_size, front: 0 };
        assert(log@ =~= Seq::<Seq<char>>::empty());
        log
    }

    /// Logs one blow of `player` under the given time of day.
    pub fn log_combat_at(
        &mut self,
        hour: u32,
        minute: u32,
        second: u32,
        player: &Player,
        combat_results: &CombatResult,
    )
        requires
            old(self).wf(),
        ensures
            final(self).wf(),
            final(self).spec_max_size() == old(self).spec_max_size(),
            final(self)@ == with_message(
                old(self)@,
                old(self).spec_max_size(),
                combat_text(
                    hour,
                    minute,
                    second,
                    player@.name,
                    combat_results.target_alive,
                    combat_results.target_name@,
                ),
            ),
    {
        let log_msg = combat_message(hour, minute, second, player.name(), combat_results);
        self.add_message(log_msg.as_str());
    }

    /// Logs one blow of `player` under the local time of day.
    pub fn log_combat(&mut self, player: &Player, combat_results: &CombatResult)
        requires
            old(self).wf(),
        ensures
            final(self).wf(),
            final(self).spec_max_size() == old(self).spec_max_size(),
            exists|time: (u32, u32, u32)|
                time_fits(time) && final(self)@ == with_message(
                    old(self)@,
                    old(self).spec_max_size(),
                    #[trigger] combat_text(
                        time.0,
                        time.1,
                        time.2,
                        player@.name,
                        combat_results.target_alive,
                        combat_results.target_name@,
                    ),
                ),
    {
        let time = local_time_of_day();
        self.log_combat_at(time.0, time.1, time.2, player, combat_results);
        assert(time_fits(time) && self@ == with_message(
            old(self)@,
            old(self).spec_max_size(),
            combat_text(
                time.0,
                time.1,
                time.2,
                player@.name,
                combat_results.target_alive,
                combat_results.target_name@,
            ),
        ));
    }

    pub fn add_message(&mut self, msg: &str)
        requires
            old(self).wf(),
        ensures
            final(self).wf(),
            final(self).spec_max_size() == old(self).spec_max_size(),
            final(self)@ == with_message(old(self)@, old(self).spec_max_size(), msg@),
            final(self)@.len() <= final(self).spec_max_size(),
    {
        proof {
            self.lemma_bounded();
        }
        if self.contents.len() < self.max_size {
            self.contents.push(String::from_str(msg));
            assert(self@ =~= old(self)@.push(msg@));
        } else {
            let front = self.front;
            self.contents[front] = String::from_str(msg);
            self.front = self.front + 1;
            if self.front >= self.max_size {
                self.front = 0;
            }
            assert(self@ =~= old(self)@.drop_first().push(msg@));
        }
    }

    pub fn last_n_messages(&self, n: usize) -> (log: Vec<String>)
        requires
            self.wf(),
        ensures
            log@.len() == newest(self@, n).len(),
            forall|k: int| 0 <= k < log@.len() ==> (#[trigger] log@[k])@ == newest(self@, n)[k],
    {
        let len = self.contents.len();
        let msg_count = if n >= len {
            len
        } else {
            n
        };
        let mut log: Vec<String> = Vec::new();
        let mut k: usize = len - msg_count;
        while k < len
            invariant
                self.wf(),
                len == self.contents@.len(),
                msg_count <= len,
                len - msg_count <= k <= len,
                log@.len() == k - (len - msg_count),
                forall|j: int|
                    0 <= j < log@.len() ==> (#[trigger] log@[j])@ == self@[len - msg_count + j],
            decreases len - k,
        {
            let at = if k >= len - self.front {
                k - (len - self.front)
            } else {
                self.front + k
            };
            log.push(self.contents[at].clone());
            k = k + 1;
        }
        log
    }
}

} // verus!
