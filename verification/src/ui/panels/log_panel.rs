//! The combat log: every result so far, newest first.

use vstd::prelude::*;

use crate::combat::types::CombatResult;
use crate::text;
use crate::text::push_decimal;

verus! {

/// The line shown for the `number`-th combat of the log.
pub open spec fn log_line(number: nat, entry: CombatResult) -> Seq<char> {
    "#"@ + text::decimal(number) + ": "@ + entry.attacker_name@ + " → "@ + entry.defender_name@ + ": "@
        + text::decimal(entry.final_damage as nat) + " damage"@
}

/// The combat log.
pub struct LogPanel<'a> {
    log: &'a [CombatResult],
}

impl<'a> View for LogPanel<'a> {
    type V = Seq<CombatResult>;

    closed spec fn view(&self) -> Seq<CombatResult> {
        self.log@
    }
}

impl<'a> LogPanel<'a> {
    pub fn new(log: &'a [CombatResult]) -> (r: Self)
        ensures
            r@ == log@,
    {
        Self { log }
    }

    /// The lines of the log, newest first: `"#3: Attacker → Defender: 5 damage"`.
    pub fn lines(&self) -> (r: Vec<String>)
        ensures
            r@.len() == self@.len(),
            forall|k: int|
                0 <= k < r@.len() ==> (#[trigger] r@[k])@ == log_line(
                    (self@.len() - k) as nat,
                    self@[self@.len() - 1 - k],
                ),
    {
        let n = self.log.len();
        let mut out: Vec<String> = Vec::new();
        let mut k: usize = 0;
        while k < n
            invariant
                n == self.log@.len(),
                k <= n,
                out@.len() == k,
                forall|j: int|
                    0 <= j < k ==> (#[trigger] out@[j])@ == log_line((n - j) as nat, self.log@[n - 1 - j]),
            decreases n - k,
        {
            let entry = &self.log[n - 1 - k];
            let mut line = String::from_str("#");
            push_decimal(&mut line, n - k);
            line.append(": ");
            line.append(entry.attacker_name.as_str());
            line.append(" → ");
            line.append(entry.defender_name.as_str());
            line.append(": ");
            push_decimal(&mut line, entry.final_damage);
            line.append(" damage");
            assert(line@ =~= log_line((n - k) as nat, self.log@[n - 1 - k]));
            out.push(line);
            k = k + 1;
        }
        out
    }
}

} // verus!
