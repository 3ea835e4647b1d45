//! Undo: naming the copies taken before each change, and finding the change
//! to undo next in the session log.
use vstd::prelude::*;
use crate::text::{decimal, digits_value, push_str};

verus! {

/// The directory of saved copies, inside a session's directory.
pub const BACKUPS_DIR: &'static str = "backups";

/// Why an undo could not be done.
#[derive(Debug)]
pub enum UndoError {
    /// No file was changed in the session.
    NothingToUndo,
    /// No session log exists under the given directory.
    NoSession(String),
    /// The saved copy of a file is gone.
    BackupMissing { path: String },
    /// A filesystem operation failed; the system's message.
    Io { operation: String, path: String, source: String },
}

/// The text of an undo error.
pub open spec fn undo_error_text(e: UndoError) -> Seq<char> {
    match e {
        UndoError::NothingToUndo => "nothing to undo — true-code has not changed any files in this session"@,
        UndoError::NoSession(dir) => "no session log found in "@ + dir@ + " — nothing to undo"@,
        UndoError::BackupMissing { path } => "the saved copy of `"@ + path@
            + "` is missing — it cannot be restored"@,
        UndoError::Io { operation, path, source } => operation@ + " failed for `"@ + path@ + "`: "@
            + source@,
    }
}

impl UndoError {
    /// The message shown to the user.
    pub fn message(&self) -> (r: String)
        ensures
            r@ == undo_error_text(*self),
    {
        match self {
            UndoError::NothingToUndo => String::from_str(
                "nothing to undo — true-code has not changed any files in this session",
            ),
            UndoError::NoSession(dir) => {
                let mut out = String::from_str("no session log found in ");
                push_str(&mut out, dir.as_str());
                push_str(&mut out, " — nothing to undo");
                out
            },
            UndoError::BackupMissing { path } => {
                let mut out = String::from_str("the saved copy of `");
                push_str(&mut out, path.as_str());
                push_str(&mut out, "` is missing — it cannot be restored");
                out
            },
            UndoError::Io { operation, path, source } => {
                let mut out = String::from_str(operation.as_str());
                push_str(&mut out, " failed for `");
                push_str(&mut out, path.as_str());
                push_str(&mut out, "`: ");
                push_str(&mut out, source.as_str());
                out
            },
        }
    }
}

/// `s` left-padded with zeros to `width` characters (`{:0width}`).
pub open spec fn zero_padded(s: Seq<char>, width: nat) -> Seq<char> {
    if s.len() >= width {
        s
    } else {
        Seq::new((width - s.len()) as nat, |i: int| '0') + s
    }
}

/// The name of the `n`-th saved copy: four digits or more, then `.bak`.
pub open spec fn backup_name(n: nat) -> Seq<char> {
    zero_padded(decimal(n), 4) + ".bak"@
}

/// Where the saved copies of one session go.
#[derive(Debug)]
pub struct Checkpoints {
    dir: String,
    next: u32,
}

impl Checkpoints {
    /// The directory of saved copies.
    pub closed spec fn dir_spec(&self) -> Seq<char> {
        self.dir@
    }

    /// The number of the next copy.
    pub closed spec fn next_spec(&self) -> nat {
        self.next as nat
    }

    /// Copies for the session kept in `session_dir`, numbered from zero.
    pub fn new(session_dir: &str) -> (r: Self)
        ensures
            r.dir_spec() == crate::path::join_path(session_dir@, BACKUPS_DIR@),
            r.next_spec() == 0,
    {
        let sv = crate::text::to_chars(session_dir);
        let bv = crate::text::to_chars(BACKUPS_DIR);
        Checkpoints { dir: crate::text::from_chars(&crate::path::join_text(&sv, &bv)), next: 0 }
    }

    /// The directory of saved copies.
    pub fn dir(&self) -> (r: &str)
        ensures
            r@ == self.dir_spec(),
    {
        self.dir.as_str()
    }

    /// Whether another copy can still be named.
    pub fn can_name(&self) -> (r: bool)
        ensures
            r == (self.next_spec() < u32::MAX),
    {
        self.next < u32::MAX
    }

    /// Takes the name for the next saved copy.
    pub fn next_name(&mut self) -> (r: String)
        requires
            old(self).next_spec() < u32::MAX,
        ensures
            r@ == backup_name(old(self).next_spec()),
            final(self).next_spec() == old(self).next_spec() + 1,
            final(self).dir_spec() == old(self).dir_spec(),
    {
        let digits = crate::text::u64_decimal(self.next as u64);
        let mut out: Vec<char> = Vec::new();
        let mut k: usize = digits.len();
        while k < 4
            invariant
                digits.len() <= k <= 4 || (k == digits.len() && k >= 4),
                out@ == Seq::new((k - digits.len()) as nat, |i: int| '0'),
            decreases 4 - k,
        {
            out.push('0');
            proof {
                assert(out@ =~= Seq::new((k + 1 - digits.len()) as nat, |i: int| '0'));
            }
            k += 1;
        }
        crate::text::extend_chars(&mut out, &digits);
        proof {
            assert(out@ =~= zero_padded(decimal(self.next as nat), 4));
        }
        let mut name = crate::text::from_chars(&out);
        push_str(&mut name, ".bak");
        self.next = self.next + 1;
        name
    }
}

/// Leading zeros do not change the value of a run of digits.
proof fn lemma_zeros_value(k: nat, d: Seq<char>)
    ensures
        digits_value(Seq::new(k, |i: int| '0') + d) == digits_value(d),
    decreases d.len(),
{
    let z = Seq::new(k, |i: int| '0');
    if d.len() == 0 {
        assert(z + d =~= z);
        lemma_zero_run(k);
    } else {
        lemma_zeros_value(k, d.drop_last());
        assert((z + d).drop_last() =~= z + d.drop_last());
        assert((z + d).last() == d.last());
    }
}

proof fn lemma_zero_run(k: nat)
    ensures
        digits_value(Seq::new(k, |i: int| '0')) == 0,
    decreases k,
{
    if k > 0 {
        lemma_zero_run((k - 1) as nat);
        assert(Seq::new(k, |i: int| '0').drop_last() =~= Seq::new((k - 1) as nat, |i: int| '0'));
        assert(('0' as u32) == 48u32);
    }
}

/// The name of a saved copy tells its number: distinct captures never share
/// a saved copy.
pub proof fn lemma_backup_names_distinct(n: nat, m: nat)
    requires
        n != m,
    ensures
        backup_name(n) != backup_name(m),
{
    crate::text::lemma_decimal_digits(n);
    crate::text::lemma_decimal_digits(m);
    reveal_strlit(".bak");
    if backup_name(n) == backup_name(m) {
        let a = zero_padded(decimal(n), 4);
        let b = zero_padded(decimal(m), 4);
        assert(backup_name(n) == a + ".bak"@);
        assert(backup_name(m) == b + ".bak"@);
        assert((a + ".bak"@).len() == a.len() + ".bak"@.len());
        assert((b + ".bak"@).len() == b.len() + ".bak"@.len());
        assert(a.len() == b.len());
        assert(a =~= backup_name(n).take(a.len() as int));
        assert(b =~= backup_name(m).take(b.len() as int));
        assert(a == b);
        lemma_padded_value(decimal(n));
        lemma_padded_value(decimal(m));
    }
}

/// Zero padding keeps the value of a run of digits.
proof fn lemma_padded_value(d: Seq<char>)
    ensures
        digits_value(zero_padded(d, 4)) == digits_value(d),
{
    if d.len() < 4 {
        lemma_zeros_value((4 - d.len()) as nat, d);
    }
}

/// A change that can be undone: the checkpoint's place in the log, the file,
/// and its saved copy (`None` when the change created the file).
#[derive(Debug, Clone, PartialEq, Eq)]
pub struct Undoable {
    pub seq: u64,
    pub path: String,
    pub backup: Option<String>,
}

/// What the session log says about checkpoints, one entry per line that
/// could be read.
#[derive(Debug)]
pub enum LogEntry {
    /// A file was about to change; its copy was saved.
    Checkpointed { seq: u64, path: String, backup: Option<String> },
    /// The change of checkpoint `checkpoint_seq` was undone.
    Reverted { checkpoint_seq: u64 },
    /// Anything else.
    Other,
}

/// Whether the log reverts the checkpoint `seq`.
pub open spec fn is_reverted(log: Seq<LogEntry>, seq: u64) -> bool {
    exists|i: int| 0 <= i < log.len() && log[i] == (LogEntry::Reverted { checkpoint_seq: seq })
}

/// The checkpoints the log reverts, in order.
pub open spec fn reverts_of(log: Seq<LogEntry>) -> Seq<u64>
    decreases log.len(),
{
    if log.len() == 0 {
        seq![]
    } else {
        match log.last() {
            LogEntry::Reverted { checkpoint_seq } => reverts_of(log.drop_last()).push(checkpoint_seq),
            _ => reverts_of(log.drop_last()),
        }
    }
}

proof fn lemma_reverts_of(log: Seq<LogEntry>, s: u64)
    ensures
        reverts_of(log).contains(s) <==> is_reverted(log, s),
    decreases log.len(),
{
    if log.len() > 0 {
        lemma_reverts_of(log.drop_last(), s);
        let r = reverts_of(log.drop_last());
        if is_reverted(log.drop_last(), s) {
            let j = choose|j: int| 0 <= j < log.drop_last().len() && log.drop_last()[j] == (LogEntry::Reverted { checkpoint_seq: s });
            assert(log[j] == log.drop_last()[j]);
        }
        if is_reverted(log, s) {
            let j = choose|j: int| 0 <= j < log.len() && log[j] == (LogEntry::Reverted { checkpoint_seq: s });
            if j < log.len() - 1 {
                assert(log.drop_last()[j] == log[j]);
            }
        }
        match log.last() {
            LogEntry::Reverted { checkpoint_seq } => {
                let n = r.push(checkpoint_seq);
                if r.contains(s) {
                    let k = choose|k: int| 0 <= k < r.len() && r[k] == s;
                    assert(n[k] == s);
                }
                if n.contains(s) && s != checkpoint_seq {
                    let k = choose|k: int| 0 <= k < n.len() && n[k] == s;
                    assert(r[k] == s);
                }
                if s == checkpoint_seq {
                    assert(n[n.len() - 1] == s);
                    assert(log[log.len() - 1] == (LogEntry::Reverted { checkpoint_seq: s }));
                }
            },
            _ => {},
        }
    }
}

/// The index of the newest checkpoint among the first `k` entries that has not
/// been reverted anywhere in the log.
pub open spec fn newest_open(log: Seq<LogEntry>, k: int) -> Option<int>
    decreases k,
{
    if k <= 0 || k > log.len() {
        None
    } else {
        match log[k - 1] {
            LogEntry::Checkpointed { seq, .. } => if !is_reverted(log, seq) {
                Some(k - 1)
            } else {
                newest_open(log, k - 1)
            },
            _ => newest_open(log, k - 1),
        }
    }
}

/// The change to undo next: the newest checkpoint not yet reverted.
pub open spec fn next_undo(log: Seq<LogEntry>) -> Option<int> {
    newest_open(log, log.len() as int)
}

proof fn lemma_newest_open_bounds(log: Seq<LogEntry>, k: int)
    ensures
        newest_open(log, k) matches Some(i) ==> 0 <= i < k && i < log.len() && log[i] is Checkpointed
            && !is_reverted(log, log[i]->Checkpointed_seq),
    decreases k,
{
    if k > 0 && k <= log.len() {
        lemma_newest_open_bounds(log, k - 1);
    }
}

/// Finds the change to undo next in the entries of a session log.
pub fn last_undoable(log: &Vec<LogEntry>) -> (r: Option<Undoable>)
    ensures
        match next_undo(log@) {
            None => r is None,
            Some(i) => r matches Some(u) && log@[i] matches LogEntry::Checkpointed { seq, path, backup } && u.seq == seq && u.path@ == path@ && (u.backup matches Some(b) ==> backup matches Some(bb) && b@ == bb@) && (u.backup is None ==> backup is None),
        },
{
    let mut reverted: Vec<u64> = Vec::new();
    let mut i: usize = 0;
    proof {
        assert(log@.take(0) =~= seq![]);
    }
    while i < log.len()
        invariant
            i <= log.len(),
            reverted@ == reverts_of(log@.take(i as int)),
        decreases log.len() - i,
    {
        proof {
            assert(log@.take(i + 1).drop_last() =~= log@.take(i as int));
            assert(log@.take(i + 1).last() == log@[i as int]);
        }
        match &log[i] {
            LogEntry::Reverted { checkpoint_seq } => {
                reverted.push(*checkpoint_seq);
            },
            _ => {},
        }
        i += 1;
    }
    proof {
        assert(log@.take(log.len() as int) =~= log@);
        assert forall|s: u64| reverted@.contains(s) <==> is_reverted(log@, s) by {
            lemma_reverts_of(log@, s);
        }
    }
    let mut k: usize = log.len();
    while k > 0
        invariant
            k <= log.len(),
            forall|s: u64| reverted@.contains(s) <==> is_reverted(log@, s),
            newest_open(log@, log@.len() as int) == newest_open(log@, k as int),
        decreases k,
    {
        match &log[k - 1] {
            LogEntry::Checkpointed { seq, path, backup } => {
                if !vec_contains(&reverted, *seq) {
                    let b = match backup {
                        Some(name) => Some(name.clone()),
                        None => None,
                    };
                    return Some(Undoable { seq: *seq, path: path.clone(), backup: b });
                }
            },
            _ => {},
        }
        k -= 1;
    }
    None
}

/// Whether `v` holds `x`.
fn vec_contains(v: &Vec<u64>, x: u64) -> (r: bool)
    ensures
        r == v@.contains(x),
{
    let mut i: usize = 0;
    while i < v.len()
        invariant
            i <= v.len(),
            forall|j: int| 0 <= j < i ==> v@[j] != x,
        decreases v.len() - i,
    {
        if v[i] == x {
            proof {
                assert(v@[i as int] == x);
            }
            return true;
        }
        i += 1;
    }
    false
}

/// Undo walks backwards: once the change found to undo is recorded as
/// reverted, the next change to undo is an older one, or there is none.
pub proof fn lemma_undo_walks_backwards(log: Seq<LogEntry>)
    requires
        next_undo(log) is Some,
    ensures
        ({
            let i = next_undo(log)->Some_0;
            let seq = log[i]->Checkpointed_seq;
            let after = log.push(LogEntry::Reverted { checkpoint_seq: seq });
            match next_undo(after) {
                None => true,
                Some(j) => j < i,
            }
        }),
{
    let i = next_undo(log)->Some_0;
    lemma_newest_open_bounds(log, log.len() as int);
    let seq = log[i]->Checkpointed_seq;
    let after = log.push(LogEntry::Reverted { checkpoint_seq: seq });
    assert(after[after.len() - 1] == (LogEntry::Reverted { checkpoint_seq: seq }));
    assert(is_reverted(after, seq));
    lemma_open_after_revert(log, seq, log.len() as int, i);
    lemma_newest_open_bounds(after, after.len() as int);
}

/// In the log with one more revert, no checkpoint at or after `i` (the newest
/// open one before) is open any more.
proof fn lemma_open_after_revert(log: Seq<LogEntry>, seq: u64, k: int, i: int)
    requires
        0 <= i < log.len(),
        k == log.len(),
        newest_open(log, k) == Some(i),
        log[i] matches LogEntry::Checkpointed { seq: s, .. } && s == seq,
    ensures
        ({
            let after = log.push(LogEntry::Reverted { checkpoint_seq: seq });
            newest_open(after, after.len() as int) matches Some(j) ==> j < i
        }),
{
    let after = log.push(LogEntry::Reverted { checkpoint_seq: seq });
    assert(is_reverted(after, seq)) by {
        assert(after[log.len() as int] == (LogEntry::Reverted { checkpoint_seq: seq }));
    }
    // The new last entry is not a checkpoint.
    assert(newest_open(after, after.len() as int) == newest_open(after, log.len() as int));
    lemma_revert_closes(log, seq, log.len() as int, i);
}

/// Stepping back from `k` over the log with one more revert, nothing at or
/// after `i` is found.
proof fn lemma_revert_closes(log: Seq<LogEntry>, seq: u64, k: int, i: int)
    requires
        0 <= i < log.len(),
        i < k <= log.len(),
        newest_open(log, k) == Some(i),
        log[i] matches LogEntry::Checkpointed { seq: s, .. } && s == seq,
    ensures
        ({
            let after = log.push(LogEntry::Reverted { checkpoint_seq: seq });
            newest_open(after, k) matches Some(j) ==> j < i
        }),
    decreases k,
{
    let after = log.push(LogEntry::Reverted { checkpoint_seq: seq });
    assert(after[k - 1] == log[k - 1]);
    assert(is_reverted(after, seq)) by {
        assert(after[log.len() as int] == (LogEntry::Reverted { checkpoint_seq: seq }));
    }
    assert forall|s: u64| is_reverted(log, s) implies is_reverted(after, s) by {
        let j = choose|j: int| 0 <= j < log.len() && log[j] == (LogEntry::Reverted { checkpoint_seq: s });
        assert(after[j] == log[j]);
    }
    if k - 1 == i {
        // The checkpoint itself is now reverted; what lies before it is older.
        lemma_newest_open_bounds(after, i);
    } else {
        // An entry after `i` that was not open before is not open now.
        match log[k - 1] {
            LogEntry::Checkpointed { seq: s2, .. } => {
                assert(is_reverted(log, s2));
                assert(is_reverted(after, s2));
            },
            _ => {},
        }
        lemma_revert_closes(log, seq, k - 1, i);
    }
}

/// What `undo` tells the user after restoring an entry.
pub fn undo_message(entry: &Undoable) -> (r: String)
    ensures
        r@ == (if entry.backup is Some {
            "Reverted "@ + entry.path@ + "."@
        } else {
            "Removed "@ + entry.path@ + ", which true-code had created."@
        }),
{
    match &entry.backup {
        Some(_) => {
            let mut out = String::from_str("Reverted ");
            push_str(&mut out, entry.path.as_str());
            push_str(&mut out, ".");
            out
        },
        None => {
            let mut out = String::from_str("Removed ");
            push_str(&mut out, entry.path.as_str());
            push_str(&mut out, ", which true-code had created.");
            out
        },
    }
}

} // verus!
