//! Putting a package directory right after an update that was interrupted.
//! An update moves the directory aside under a name of its own and removes
//! that backup once the new directory is in place.

use vstd::prelude::*;

use crate::text;

verus! {

/// How many digits mark one backup.
pub const MARK_LEN: usize = 32;

/// A digit of a backup's mark.
#[verifier::allow_in_spec]
pub fn is_mark_digit(c: char) -> bool
    returns
        (('0' <= c && c <= '9') || ('a' <= c && c <= 'f')),
{
    ('0' <= c && c <= '9') || ('a' <= c && c <= 'f')
}

/// What the names of the backups of `name` start with.
pub open spec fn backup_prefix(name: Seq<char>) -> Seq<char> {
    "."@ + name + ".rpi-backup-"@
}

/// Whether `sibling` is the name of a backup of the directory `name`.
pub open spec fn backup_of(name: Seq<char>, sibling: Seq<char>) -> bool {
    match text::after_prefix(sibling, backup_prefix(name)) {
        Some(mark) => mark.len() == MARK_LEN && forall|i: int|
            0 <= i < mark.len() ==> is_mark_digit(#[trigger] mark[i]),
        None => false,
    }
}

/// Whether `sibling` is the name of a backup of the directory `name`.
pub fn is_backup(name: &str, sibling: &str) -> (r: bool)
    ensures
        r == backup_of(name@, sibling@),
{
    let prefix = text::cat3(".", name, ".rpi-backup-");
    match text::strip_prefix(sibling, prefix.as_str()) {
        Some(mark) => {
            let digits = text::chars_of(mark);
            if digits.len() != MARK_LEN {
                return false;
            }
            let mut i: usize = 0;
            while i < digits.len()
                invariant
                    i <= digits@.len(),
                    digits@ == mark@,
                    text::after_prefix(sibling@, backup_prefix(name@)) == Some(mark@),
                    forall|j: int| 0 <= j < i ==> is_mark_digit(#[trigger] mark@[j]),
                decreases digits.len() - i,
            {
                if !is_mark_digit(digits[i]) {
                    assert(!is_mark_digit(mark@[i as int]));
                    return false;
                }
                i += 1;
            }
            true
        },
        None => false,
    }
}

/// The backups of `name` among the first `n` siblings.
pub open spec fn backups_among(name: Seq<char>, siblings: Seq<Seq<char>>, n: int) -> Seq<Seq<char>>
    decreases n,
{
    if n <= 0 {
        seq![]
    } else if backup_of(name, siblings[n - 1]) {
        backups_among(name, siblings, n - 1).push(siblings[n - 1])
    } else {
        backups_among(name, siblings, n - 1)
    }
}

/// What is done about a directory.
pub enum Recovery {
    /// Nothing was left behind.
    Nothing,
    /// The only backup is moved back.
    Restore(String),
    /// The directory is there, and its backups are removed.
    Clean(Vec<String>),
    /// More than one backup could be moved back.
    Refuse(String),
}

/// What is done about a directory.
#[verifier::ext_equal]
pub enum RecoveryModel {
    Nothing,
    Restore(Seq<char>),
    Clean(Seq<Seq<char>>),
    Refuse(Seq<char>),
}

impl View for Recovery {
    type V = RecoveryModel;

    open spec fn view(&self) -> RecoveryModel {
        match self {
            Recovery::Nothing => RecoveryModel::Nothing,
            Recovery::Restore(backup) => RecoveryModel::Restore(backup@),
            Recovery::Clean(backups) => RecoveryModel::Clean(text::texts(backups@)),
            Recovery::Refuse(message) => RecoveryModel::Refuse(message@),
        }
    }
}

/// What is done about the directory `name`, which is `present` or not, among
/// its siblings.
pub open spec fn recovery_of(name: Seq<char>, present: bool, siblings: Seq<Seq<char>>) ->
    RecoveryModel {
    let backups = backups_among(name, siblings, siblings.len() as int);
    if backups.len() == 0 {
        RecoveryModel::Nothing
    } else if present {
        RecoveryModel::Clean(backups)
    } else if backups.len() == 1 {
        RecoveryModel::Restore(backups[0])
    } else {
        RecoveryModel::Refuse(
            "found "@ + text::digits_of(backups.len()) + " interrupted updates of "@ + name
                + "; keep one backup and remove the others"@,
        )
    }
}

/// What is done about the directory `name`, which is `present` or not, among
/// its siblings.
pub fn plan_recovery(name: &str, present: bool, siblings: &[String]) -> (r: Recovery)
    ensures
        r@ == recovery_of(name@, present, text::texts(siblings@)),
{
    let ghost all = text::texts(siblings@);
    let mut backups: Vec<String> = Vec::new();
    assert(text::texts(backups@) =~= seq![]);
    let mut i: usize = 0;
    while i < siblings.len()
        invariant
            i <= siblings@.len(),
            all == text::texts(siblings@),
            text::texts(backups@) == backups_among(name@, all, i as int),
        decreases siblings.len() - i,
    {
        assert(all[i as int] == siblings@[i as int]@);
        if is_backup(name, siblings[i].as_str()) {
            text::push_text(&mut backups, siblings[i].as_str());
        }
        i += 1;
    }
    assert(text::texts(backups@).len() == backups@.len());
    if backups.len() == 0 {
        Recovery::Nothing
    } else if present {
        Recovery::Clean(backups)
    } else if backups.len() == 1 {
        assert(text::texts(backups@)[0] == backups@[0]@);
        Recovery::Restore(backups[0].clone())
    } else {
        let count = text::number_text(backups.len() as u64);
        let mut message = text::cat4("found ", count.as_str(), " interrupted updates of ", name);
        message.append("; keep one backup and remove the others");
        Recovery::Refuse(message)
    }
}

proof fn lemma_backups(name: Seq<char>, siblings: Seq<Seq<char>>, n: int, i: int)
    requires
        n <= siblings.len(),
        0 <= i < backups_among(name, siblings, n).len(),
    ensures
        backup_of(name, backups_among(name, siblings, n)[i]),
        siblings.contains(backups_among(name, siblings, n)[i]),
    decreases n,
{
    if n > 0 {
        if i < backups_among(name, siblings, n - 1).len() {
            lemma_backups(name, siblings, n - 1, i);
        }
    }
}

/// A directory that is there is never replaced, and only backups of the
/// directory itself are moved or removed.
pub proof fn lemma_recovery_touches_backups_only(
    name: Seq<char>,
    present: bool,
    siblings: Seq<Seq<char>>,
)
    ensures
        match recovery_of(name, present, siblings) {
            RecoveryModel::Restore(backup) => !present && backup_of(name, backup)
                && siblings.contains(backup),
            RecoveryModel::Clean(backups) => present && forall|i: int|
                0 <= i < backups.len() ==> backup_of(name, #[trigger] backups[i])
                    && siblings.contains(backups[i]),
            _ => true,
        },
{
    let backups = backups_among(name, siblings, siblings.len() as int);
    assert forall|i: int| 0 <= i < backups.len() implies backup_of(name, #[trigger] backups[i])
        && siblings.contains(backups[i]) by {
        lemma_backups(name, siblings, siblings.len() as int, i);
    }
}

} // verus!
