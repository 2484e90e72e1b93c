//! Finds out whether the key remapper keyd is on the system.
//!
//! keyd reads all input devices, the virtual keyboard of this program too, and emits what it
//! read once more. Unless keyd is told to ignore that keyboard, each rewritten character
//! appears twice. The user is warned, and keyd's settings are left alone.

use vstd::prelude::*;

use crate::text;

verus! {

/// Where the binary of keyd is usually found.
pub const KEYD_PATHS: [&'static str; 3] = [
    "/usr/local/bin/keyd",
    "/usr/bin/keyd",
    "/opt/keyd/bin/keyd",
];

/// An entry of the process directory.
#[derive(Debug, Clone)]
pub struct ProcEntry {
    pub name: String,
    /// The name of the command, if it could be read.
    pub comm: Option<String>,
}

/// The entry belongs to a process of keyd: its name is a process number, and the command is
/// named keyd.
pub open spec fn is_keyd_process(entry: ProcEntry) -> bool {
    &&& text::all_digits(entry.name@)
    &&& match entry.comm {
        Some(comm) => text::trimmed(comm@) == "keyd"@,
        None => false,
    }
}

/// One of the usual paths is among the files that exist.
pub open spec fn has_keyd_binary(existing: Seq<Seq<char>>) -> bool {
    exists|i: int| 0 <= i < KEYD_PATHS@.len() && existing.contains(#[trigger] KEYD_PATHS@[i]@)
}

/// One of the entries belongs to a process of keyd.
pub open spec fn has_keyd_process(entries: Seq<ProcEntry>) -> bool {
    exists|i: int| 0 <= i < entries.len() && is_keyd_process(#[trigger] entries[i])
}

/// Whether an entry of the process directory is a process, so that its command is worth reading.
pub fn is_process(name: &str) -> (r: bool)
    ensures
        r == text::all_digits(name@),
{
    text::is_all_digits(name)
}

/// Whether a file at one of the usual paths exists, from the files that do.
pub fn keyd_binary_exists(existing: &[String]) -> (r: bool)
    ensures
        r == has_keyd_binary(text::texts(existing@)),
{
    let paths = KEYD_PATHS.as_slice();
    let ghost files = text::texts(existing@);
    let mut i: usize = 0;
    while i < paths.len()
        invariant
            paths@ == KEYD_PATHS@,
            files == text::texts(existing@),
            0 <= i <= paths@.len(),
            forall|k: int| 0 <= k < i ==> !files.contains(#[trigger] KEYD_PATHS@[k]@),
        decreases paths@.len() - i,
    {
        let mut j: usize = 0;
        while j < existing.len()
            invariant
                paths@ == KEYD_PATHS@,
                files == text::texts(existing@),
                0 <= i < paths@.len(),
                0 <= j <= existing@.len(),
                forall|k: int| 0 <= k < j ==> files[k] != KEYD_PATHS@[i as int]@,
            decreases existing@.len() - j,
        {
            if text::same_text(existing[j].as_str(), paths[i]) {
                proof {
                    assert(files[j as int] == KEYD_PATHS@[i as int]@);
                    assert(files.contains(KEYD_PATHS@[i as int]@));
                }
                return true;
            }
            j += 1;
        }
        i += 1;
    }
    false
}

/// Whether a process of keyd runs, from the entries of the process directory.
pub fn keyd_process_running(entries: &[ProcEntry]) -> (r: bool)
    ensures
        r == has_keyd_process(entries@),
{
    let mut i: usize = 0;
    while i < entries.len()
        invariant
            0 <= i <= entries@.len(),
            forall|k: int| 0 <= k < i ==> !is_keyd_process(#[trigger] entries@[k]),
        decreases entries@.len() - i,
    {
        if is_process(entries[i].name.as_str()) {
            if let Some(comm) = &entries[i].comm {
                let command = text::trim_text(comm.as_str());
                if text::same_text(command.as_str(), "keyd") {
                    proof {
                        assert(is_keyd_process(entries@[i as int]));
                    }
                    return true;
                }
            }
        }
        i += 1;
    }
    false
}

/// Whether keyd is on the system: installed at a usual path, or running.
///
/// What could not be read is not among the arguments, and counts as no keyd.
pub fn is_keyd_present(existing: &[String], entries: &[ProcEntry]) -> (r: bool)
    ensures
        r == (has_keyd_binary(text::texts(existing@)) || has_keyd_process(entries@)),
{
    if keyd_binary_exists(existing) {
        return true;
    }
    keyd_process_running(entries)
}

/// What the user is told when keyd is on the system.
#[derive(Debug, Clone)]
pub struct KeydNotice {
    pub warning: String,
    pub advice: String,
}

/// The warning about keyd, if it is on the system.
pub fn warn_if_keyd_active(existing: &[String], entries: &[ProcEntry]) -> (r: Option<KeydNotice>)
    ensures
        r is Some <==> has_keyd_binary(text::texts(existing@)) || has_keyd_process(entries@),
        r is Some ==> r->0.warning@
            == "keyd detected — без настройки будет echo-loop (дубли символов в окне после FLIP)"@,
        r is Some ==> r->0.advice@
            == "Для починки: добавь в ~/.config/keyd/default.conf секцию `[ids]` со строкой `-6d61:7465`, затем `sudo systemctl reload keyd`. Подробнее — docs/keyd-setup.md в репе."@,
{
    if !is_keyd_present(existing, entries) {
        return None;
    }
    let warning = text::owned(
        "keyd detected — без настройки будет echo-loop (дубли символов в окне после FLIP)",
    );
    let advice = text::owned(
        "Для починки: добавь в ~/.config/keyd/default.conf секцию `[ids]` со строкой `-6d61:7465`, затем `sudo systemctl reload keyd`. Подробнее — docs/keyd-setup.md в репе.",
    );
    Some(KeydNotice { warning, advice })
}

/// keyd is installed exactly if one of three files exists. It runs exactly if there is an entry
/// whose name is a number and whose command, without the white space around it, is keyd.
pub proof fn law_how_keyd_is_found(existing: Seq<Seq<char>>, entries: Seq<ProcEntry>)
    ensures
        has_keyd_binary(existing) <==> existing.contains("/usr/local/bin/keyd"@)
            || existing.contains("/usr/bin/keyd"@) || existing.contains("/opt/keyd/bin/keyd"@),
        has_keyd_process(entries) <==> exists|i: int|
            {
                &&& 0 <= i < entries.len()
                &&& forall|k: int|
                    0 <= k < (#[trigger] entries[i]).name@.len() ==> '0' <= #[trigger] entries[i].name@[k]
                        <= '9'
                &&& entries[i].comm matches Some(comm) && text::trimmed(comm@) == "keyd"@
            },
{
    assert(KEYD_PATHS@[0]@ == "/usr/local/bin/keyd"@);
    assert(KEYD_PATHS@[1]@ == "/usr/bin/keyd"@);
    assert(KEYD_PATHS@[2]@ == "/opt/keyd/bin/keyd"@);
    assert forall|i: int| 0 <= i < entries.len() implies (is_keyd_process(#[trigger] entries[i])
        <==> ((forall|k: int|
        0 <= k < entries[i].name@.len() ==> '0' <= #[trigger] entries[i].name@[k] <= '9')
        && (entries[i].comm matches Some(comm) && text::trimmed(comm@) == "keyd"@))) by {
        text::law_all_digits(entries[i].name@);
    }
    if has_keyd_process(entries) {
        let i = choose|i: int| 0 <= i < entries.len() && is_keyd_process(#[trigger] entries[i]);
        text::law_all_digits(entries[i].name@);
    }
    if exists|i: int|
        {
            &&& 0 <= i < entries.len()
            &&& forall|k: int|
                0 <= k < (#[trigger] entries[i]).name@.len() ==> '0' <= #[trigger] entries[i].name@[k]
                    <= '9'
            &&& entries[i].comm matches Some(comm) && text::trimmed(comm@) == "keyd"@
        } {
        let i = choose|i: int|
            {
                &&& 0 <= i < entries.len()
                &&& forall|k: int|
                    0 <= k < (#[trigger] entries[i]).name@.len() ==> '0' <= #[trigger] entries[i].name@[k]
                        <= '9'
                &&& entries[i].comm matches Some(comm) && text::trimmed(comm@) == "keyd"@
            };
        text::law_all_digits(entries[i].name@);
        assert(is_keyd_process(entries[i]));
    }
}

} // verus!
