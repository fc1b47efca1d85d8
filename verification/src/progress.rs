//! What is said in the course of a command.
use vstd::prelude::*;

use crate::batch;
use crate::batch::BatchItem;
use crate::batch::BatchKind;
use crate::cli;
use crate::cli::Command;
use crate::manager;
use crate::manager::UpdateTarget;
use crate::pkg_utils;
use crate::pkg_utils::PackageMetadata;
use crate::text;
use crate::ui;

verus! {

/// What is said when a command begins its work, if anything is.
pub open spec fn announced(cmd: cli::CommandView) -> Option<Seq<char>> {
    match cmd {
        cli::CommandView::Install { local, .. } => if local {
            Some("Starting local installation...."@)
        } else {
            Some("Starting the operation...."@)
        },
        cli::CommandView::Delete { .. } => Some("Starting the operation...."@),
        cli::CommandView::Update { .. } => Some("Checking for system update...."@),
        cli::CommandView::Package { package, .. } => Some(
            "Fetching "@ + package + " information...."@,
        ),
        _ => None,
    }
}

/// What is said when a command begins its work, if anything is.
pub fn announcement(cmd: &Command) -> (r: Option<String>)
    ensures
        cli::opt_text(r) == announced(cmd@),
{
    match cmd {
        Command::Install { local, .. } => if *local {
            Some("Starting local installation....".to_owned())
        } else {
            Some("Starting the operation....".to_owned())
        },
        Command::Delete { .. } => Some("Starting the operation....".to_owned()),
        Command::Update { .. } => Some("Checking for system update....".to_owned()),
        Command::Package { package, .. } => Some(
            text::join3("Fetching ", package, " information...."),
        ),
        _ => None,
    }
}

// ---------------------------------------------------------------------------
// What is about to happen

/// A heading that counts, and a line for each entry.
pub open spec fn counted_lines(
    head: Seq<char>,
    tail: Seq<char>,
    entries: Seq<Seq<char>>,
) -> Seq<Seq<char>> {
    seq![head + text::decimal_of(entries.len()) + tail] + entries.map_values(
        |e: Seq<char>| ui::item_line(e),
    )
}

fn write_counted(head: &str, tail: &str, entries: &Vec<String>) -> (r: Vec<String>)
    ensures
        text::texts(r@) == counted_lines(head@, tail@, text::texts(entries@)),
{
    let ghost all = text::texts(entries@);
    let ghost want = counted_lines(head@, tail@, all);
    let mut out: Vec<String> = Vec::new();
    out.push(text::join3(head, &text::decimal_wide(entries.len() as u128), tail));
    assert(text::texts(out@) =~= want.take(1));
    let mut i: usize = 0;
    while i < entries.len()
        invariant
            i <= entries@.len(),
            all == text::texts(entries@),
            want == counted_lines(head@, tail@, all),
            text::texts(out@) == want.take(1 + i),
        decreases entries@.len() - i,
    {
        let ghost before = out@;
        assert(all[i as int] == entries@[i as int]@);
        assert(want[1 + i] == ui::item_line(all[i as int]));
        out.push(text::join2("    ‣ ", &entries[i]));
        assert(text::texts(out@) =~= text::texts(before).push(want[1 + i]));
        i = i + 1;
        assert(text::texts(out@) =~= want.take(1 + i));
    }
    assert(want.take(want.len() as int) =~= want);
    out
}

/// What is about to be installed from repositories.
pub fn install_preview(names: &Vec<String>) -> (r: Vec<String>)
    ensures
        text::texts(r@) == counted_lines(
            "About to install "@,
            " package(s):"@,
            text::texts(names@),
        ),
{
    write_counted("About to install ", " package(s):", names)
}

/// What is about to be deleted.
pub fn delete_preview(names: &Vec<String>) -> (r: Vec<String>)
    ensures
        text::texts(r@) == counted_lines(
            "About to delete "@,
            " package(s):"@,
            text::texts(names@),
        ),
{
    write_counted("About to delete ", " package(s):", names)
}

/// A local package as it is listed: its name, its version and its file.
pub open spec fn local_entry(file: Seq<char>, m: pkg_utils::MetadataView) -> Seq<char> {
    m.name + " ("@ + m.version + ") ["@ + file + "]"@
}

/// Local packages, each a file and what it says of itself.
pub open spec fn local_entries(v: Seq<(String, PackageMetadata)>) -> Seq<Seq<char>> {
    v.map_values(|l: (String, PackageMetadata)| local_entry(l.0@, l.1@))
}

/// What is about to be installed from local files.
pub fn local_preview(locals: &Vec<(String, PackageMetadata)>) -> (r: Vec<String>)
    ensures
        text::texts(r@) == counted_lines(
            "About to install "@,
            " local package(s):"@,
            local_entries(locals@),
        ),
{
    let ghost all = local_entries(locals@);
    let mut entries: Vec<String> = Vec::new();
    let mut i: usize = 0;
    while i < locals.len()
        invariant
            i <= locals@.len(),
            all == local_entries(locals@),
            text::texts(entries@) == all.take(i as int),
        decreases locals@.len() - i,
    {
        let ghost before = entries@;
        let l = &locals[i];
        let entry = text::join2(
            &text::join5(&l.1.name, " (", &l.1.version, ") [", &l.0),
            "]",
        );
        assert(all[i as int] == entry@);
        entries.push(entry);
        assert(text::texts(entries@) =~= text::texts(before).push(all[i as int]));
        i = i + 1;
        assert(text::texts(entries@) =~= all.take(i as int));
    }
    assert(all.take(all.len() as int) =~= all);
    write_counted("About to install ", " local package(s):", &entries)
}

/// The updates that are available, one to a line below their number.
pub open spec fn update_lines(updates: Seq<manager::UpdateView>) -> Seq<Seq<char>> {
    seq!["Available updates ("@ + text::decimal_of(updates.len()) + "):"@] + updates.map_values(
        |u: manager::UpdateView| manager::update_text(u),
    )
}

/// The updates that are available.
pub fn update_preview(updates: &Vec<UpdateTarget>) -> (r: Vec<String>)
    ensures
        text::texts(r@) == update_lines(manager::updates_of(updates@)),
{
    let ghost all = manager::updates_of(updates@);
    let ghost want = update_lines(all);
    let mut out: Vec<String> = Vec::new();
    out.push(
        text::join3("Available updates (", &text::decimal_wide(updates.len() as u128), "):"),
    );
    assert(text::texts(out@) =~= want.take(1));
    let mut i: usize = 0;
    while i < updates.len()
        invariant
            i <= updates@.len(),
            all == manager::updates_of(updates@),
            want == update_lines(all),
            text::texts(out@) == want.take(1 + i),
        decreases updates@.len() - i,
    {
        let ghost before = out@;
        assert(all[i as int] == updates@[i as int]@);
        assert(want[1 + i] == manager::update_text(all[i as int]));
        out.push(manager::update_line(&updates[i]));
        assert(text::texts(out@) =~= text::texts(before).push(want[1 + i]));
        i = i + 1;
        assert(text::texts(out@) =~= want.take(1 + i));
    }
    assert(want.take(want.len() as int) =~= want);
    out
}

// ---------------------------------------------------------------------------
// What is happening

/// What is said before packages are downloaded.
pub fn download_notice(kind: BatchKind, count: usize) -> (r: String)
    ensures
        r@ == (if kind == BatchKind::Update {
            "Updating "@
        } else {
            "Downloading "@
        }) + text::decimal_of(count as nat) + " package(s)...."@,
{
    match kind {
        BatchKind::Update => text::join3(
            "Updating ",
            &text::decimal_wide(count as u128),
            " package(s)....",
        ),
        _ => text::join3("Downloading ", &text::decimal_wide(count as u128), " package(s)...."),
    }
}

/// What is said before a batch is put in place.
pub fn batch_notice(kind: BatchKind, count: usize) -> (r: String)
    ensures
        r@ == (match kind {
            BatchKind::Local => "Installing "@ + text::decimal_of(count as nat)
                + " package(s)...."@,
            BatchKind::Remote => "Installing "@ + text::decimal_of(count as nat)
                + " package(s) to system:"@,
            BatchKind::Update => "Updating "@ + text::decimal_of(count as nat)
                + " package(s) to system:"@,
        }),
{
    let n = text::decimal_wide(count as u128);
    match kind {
        BatchKind::Local => text::join3("Installing ", &n, " package(s)...."),
        BatchKind::Remote => text::join3("Installing ", &n, " package(s) to system:"),
        BatchKind::Update => text::join3("Updating ", &n, " package(s) to system:"),
    }
}

/// What is said before the last functions of a batch run.
pub fn hooks_notice(kind: BatchKind, count: usize) -> (r: String)
    ensures
        r@ == (if kind == BatchKind::Update {
            "Running post-upgrade hooks for "@
        } else {
            "Running post-install hooks for "@
        }) + text::decimal_of(count as nat) + " package(s)...."@,
{
    let n = text::decimal_wide(count as u128);
    match kind {
        BatchKind::Update => text::join3("Running post-upgrade hooks for ", &n, " package(s)...."),
        _ => text::join3("Running post-install hooks for ", &n, " package(s)...."),
    }
}

/// What is said before a package of a batch is put in place.
pub open spec fn item_text(kind: BatchKind, item: batch::ItemView) -> Seq<char> {
    match item.record {
        Some(p) => "➔ Updating "@ + p.name + " ("@ + p.version + " ➔ "@ + item.metadata.version
            + ")..."@,
        None => "➔ Installing "@ + item.metadata.name + " ("@ + item.metadata.version + ")"@ + (
        if kind == BatchKind::Local {
            " from "@ + item.path + "...."@
        } else {
            "...."@
        }),
    }
}

/// What is said before a package of a batch is put in place.
pub fn item_notice(kind: BatchKind, item: &BatchItem) -> (r: String)
    ensures
        r@ == item_text(kind, item@),
{
    match &item.record {
        Some(p) => {
            let head = text::join5("➔ Updating ", &p.name, " (", &p.version, " ➔ ");
            text::join3(&head, &item.metadata.version, ")...")
        },
        None => {
            let head = text::join5(
                "➔ Installing ",
                &item.metadata.name,
                " (",
                &item.metadata.version,
                ")",
            );
            let tail = match kind {
                BatchKind::Local => text::join3(" from ", &item.path, "...."),
                _ => "....".to_owned(),
            };
            text::join2(&head, &tail)
        },
    }
}

/// A list is told with its length first and then a line for each entry, in
/// order.
pub proof fn every_entry_is_told(
    head: Seq<char>,
    tail: Seq<char>,
    entries: Seq<Seq<char>>,
    k: int,
)
    requires
        0 <= k < entries.len(),
    ensures
        counted_lines(head, tail, entries).len() == 1 + entries.len(),
        counted_lines(head, tail, entries)[0] == head + text::decimal_of(entries.len()) + tail,
        counted_lines(head, tail, entries)[1 + k] == "    ‣ "@ + entries[k],
{
}

/// Every update is told, in order.
pub proof fn every_update_is_told(updates: Seq<manager::UpdateView>, k: int)
    requires
        0 <= k < updates.len(),
    ensures
        update_lines(updates).len() == 1 + updates.len(),
        update_lines(updates)[1 + k] == "    ‣ "@ + updates[k].record.name + " ("@
            + updates[k].record.version + " ➔ "@ + updates[k].remote_version + ")"@,
{
}

} // verus!
