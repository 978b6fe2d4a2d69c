//! What is said of the work on caches, configurations and hooks.

use crate::artifacts::VendorEntry;
use crate::artifacts::VendorOutcome;
use crate::cache::CacheEntry;
use crate::chars;
use crate::fspath;
use crate::text;
use crate::units;
use crate::upgrade::Change;
use crate::upgrade::UpgradeOutcome;
use vstd::prelude::*;

verus! {

fn push_line(lines: &mut Vec<String>, line: String)
    ensures
        chars::views(final(lines)@) == chars::views(old(lines)@).push(line@),
{
    let ghost before = chars::views(lines@);
    let ghost l = line@;
    lines.push(line);
    assert(chars::views(lines@) =~= before.push(l));
}

/// Each text between two others.
pub open spec fn wrapped(texts: Seq<Seq<char>>, before: Seq<char>, after: Seq<char>) -> Seq<
    Seq<char>,
>
    decreases texts.len(),
{
    if texts.len() == 0 {
        Seq::empty()
    } else {
        wrapped(texts.drop_last(), before, after).push(before + texts.last() + after)
    }
}

fn push_wrapped(lines: &mut Vec<String>, texts: &Vec<String>, before: &str, after: &str)
    ensures
        chars::views(final(lines)@) == chars::views(old(lines)@) + wrapped(
            chars::views(texts@),
            before@,
            after@,
        ),
{
    let ghost all = chars::views(texts@);
    let ghost start = chars::views(lines@);
    let mut i: usize = 0;
    assert(start + wrapped(all.take(0), before@, after@) =~= start);
    while i < texts.len()
        invariant
            i <= texts.len(),
            all == chars::views(texts@),
            chars::views(lines@) == start + wrapped(all.take(i as int), before@, after@),
        decreases texts.len() - i,
    {
        let ghost done = wrapped(all.take(i as int), before@, after@);
        assert(all.take(i + 1).drop_last() =~= all.take(i as int));
        assert(all[i as int] == texts@[i as int]@);
        let line = text::cat3(before, &texts[i], after);
        let ghost l = line@;
        push_line(lines, line);
        assert((start + done).push(l) =~= start + done.push(l));
        i += 1;
    }
    assert(all.take(i as int) =~= all);
}

fn owned_list(words: &Vec<&'static str>) -> (r: Vec<String>)
    ensures
        chars::views(r@) == words@.map_values(|w: &'static str| w@),
{
    let mut r: Vec<String> = Vec::new();
    let mut i: usize = 0;
    while i < words.len()
        invariant
            i <= words.len(),
            chars::views(r@) =~= words@.take(i as int).map_values(|w: &'static str| w@),
        decreases words.len() - i,
    {
        push_line(&mut r, words[i].to_owned());
        assert(words@.take(i + 1).map_values(|w: &'static str| w@) =~= words@.take(
            i as int,
        ).map_values(|w: &'static str| w@).push(words@[i as int]@));
        i += 1;
    }
    assert(words@.take(i as int) =~= words@);
    r
}

/// The lines that report which starter files were written.
pub open spec fn init_report(written: Seq<Seq<char>>) -> Seq<Seq<char>> {
    if written.len() == 0 {
        seq!["kempt: nothing to do (config already exists)"@]
    } else {
        wrapped(written, "created "@, ""@)
    }
}

/// Reports which starter files were written.
pub fn report_init(written: &Vec<String>) -> (r: Vec<String>)
    ensures
        chars::views(r@) == init_report(chars::views(written@)),
{
    let mut lines: Vec<String> = Vec::new();
    assert(chars::views(lines@) =~= Seq::empty());
    if written.len() == 0 {
        push_line(&mut lines, "kempt: nothing to do (config already exists)".to_owned());
        assert(chars::views(lines@) =~= init_report(chars::views(written@)));
    } else {
        push_wrapped(&mut lines, written, "created ", "");
        assert(chars::views(lines@) =~= init_report(chars::views(written@)));
    }
    lines
}

/// The line that reports how many files the hook staged again; none where it
/// staged none.
pub open spec fn hook_report(n: nat) -> Seq<Seq<char>> {
    if n == 0 {
        Seq::empty()
    } else {
        seq!["kempt: re-staged "@ + chars::decimal(n) + " file(s)"@]
    }
}

/// Reports how many files the hook staged again.
pub fn report_hook(n: usize) -> (r: Vec<String>)
    ensures
        chars::views(r@) == hook_report(n as nat),
{
    let mut lines: Vec<String> = Vec::new();
    if n > 0 {
        push_line(
            &mut lines,
            text::cat3("kempt: re-staged ", &text::decimal(n as u64), " file(s)"),
        );
    }
    assert(chars::views(lines@) =~= hook_report(n as nat));
    lines
}

/// A text with spaces after it, up to a width.
pub open spec fn padded(s: Seq<char>, width: nat) -> Seq<char>
    decreases width - s.len(),
{
    if s.len() >= width {
        s
    } else {
        padded(s.push(' '), width)
    }
}

fn pad(s: &str, width: usize) -> (r: String)
    ensures
        r@ == padded(s@, width as nat),
{
    let mut n: usize = text::chars_of(s).len();
    let mut r = s.to_owned();
    while n < width
        invariant
            n == r@.len(),
            padded(r@, width as nat) == padded(s@, width as nat),
        decreases width - n,
    {
        r.push(' ');
        n += 1;
    }
    r
}

/// The line of a cached file: its name and its size.
pub open spec fn cache_line(e: CacheEntry) -> Seq<char> {
    "  "@ + padded(
        match fspath::base_name(e.path@) {
            Some(n) => n,
            None => "?"@,
        },
        32,
    ) + " "@ + units::human(e.size as nat)
}

/// The lines that list the cache.
pub open spec fn cache_report(root: Seq<char>, entries: Seq<CacheEntry>) -> Seq<Seq<char>> {
    if entries.len() == 0 {
        seq!["kempt: cache is empty ("@ + root + ")"@]
    } else {
        seq![root + ":"@] + entries.map_values(|e: CacheEntry| cache_line(e))
    }
}

/// Lists the cache.
pub fn report_cache(root: &str, entries: &Vec<CacheEntry>) -> (r: Vec<String>)
    ensures
        chars::views(r@) == cache_report(root@, entries@),
{
    let mut lines: Vec<String> = Vec::new();
    if entries.len() == 0 {
        push_line(&mut lines, text::cat3("kempt: cache is empty (", root, ")"));
        assert(chars::views(lines@) =~= cache_report(root@, entries@));
        return lines;
    }
    push_line(&mut lines, text::cat2(root, ":"));
    let ghost head = seq![root@ + ":"@];
    let mut i: usize = 0;
    assert(chars::views(lines@) =~= head);
    while i < entries.len()
        invariant
            i <= entries.len(),
            head == seq![root@ + ":"@],
            chars::views(lines@) =~= head + entries@.take(i as int).map_values(
                |e: CacheEntry| cache_line(e),
            ),
        decreases entries.len() - i,
    {
        let e = &entries[i];
        let name = match fspath::file_name(&e.path) {
            Some(n) => n,
            None => "?".to_owned(),
        };
        let line = text::cat4("  ", &pad(&name, 32), " ", &units::human_bytes(e.size));
        assert(line@ == cache_line(entries@[i as int]));
        push_line(&mut lines, line);
        assert(entries@.take(i + 1).map_values(|e: CacheEntry| cache_line(e)) =~= entries@.take(
            i as int,
        ).map_values(|e: CacheEntry| cache_line(e)).push(cache_line(entries@[i as int])));
        i += 1;
    }
    assert(entries@.take(i as int) =~= entries@);
    lines
}

/// The line of a formatter that was copied.
pub open spec fn copied_line(e: VendorEntry) -> Seq<char> {
    "  "@ + e.tool@ + " "@ + e.version@ + " -> "@ + e.dest@
}

/// The lines of all formatters that were copied.
pub open spec fn copied_lines(entries: Seq<VendorEntry>) -> Seq<Seq<char>> {
    entries.map_values(|e: VendorEntry| copied_line(e))
}

/// The lines that show the settings of the formatters that were copied.
pub open spec fn snippets(entries: Seq<VendorEntry>) -> Seq<Seq<char>>
    decreases entries.len(),
{
    if entries.len() == 0 {
        Seq::empty()
    } else {
        let e = entries.last();
        snippets(entries.drop_last()) + seq![
            ""@,
            "  ["@ + e.tool@ + "]"@,
            "  path = \""@ + e.config_value@ + "\""@,
        ]
    }
}

/// The lines that report what was vendored.
pub open spec fn vendor_report(o: VendorOutcome) -> Seq<Seq<char>> {
    if o.entries@.len() == 0 && o.skipped@.len() == 0 {
        seq!["kempt: nothing to vendor (no [ktfmt] or [gjf] in config)"@]
    } else {
        wrapped(
            o.skipped@.map_values(|w: &'static str| w@),
            "kempt: ["@,
            "] already uses `path = ...`, skipping"@,
        ) + (if o.entries@.len() == 0 {
            Seq::<Seq<char>>::empty()
        } else {
            seq!["vendored "@ + chars::decimal(o.entries@.len()) + " artifact(s):"@]
                + copied_lines(o.entries@) + seq![
                ""@,
                "update .kempt.toml to point at the vendored copies:"@,
            ] + snippets(o.entries@)
        })
    }
}

fn list_copied(entries: &Vec<VendorEntry>) -> (r: Vec<String>)
    ensures
        chars::views(r@) == copied_lines(entries@),
{
    let mut r: Vec<String> = Vec::new();
    let mut i: usize = 0;
    while i < entries.len()
        invariant
            i <= entries.len(),
            chars::views(r@) =~= copied_lines(entries@.take(i as int)),
        decreases entries.len() - i,
    {
        let e = &entries[i];
        let mut line = text::cat4("  ", e.tool, " ", &e.version);
        line.push_str(" -> ");
        line.push_str(&e.dest);
        push_line(&mut r, line);
        assert(copied_lines(entries@.take(i + 1)) =~= copied_lines(entries@.take(i as int)).push(
            copied_line(entries@[i as int]),
        ));
        i += 1;
    }
    assert(entries@.take(i as int) =~= entries@);
    r
}

fn list_snippets(entries: &Vec<VendorEntry>) -> (r: Vec<String>)
    ensures
        chars::views(r@) == snippets(entries@),
{
    let mut r: Vec<String> = Vec::new();
    let mut i: usize = 0;
    assert(chars::views(r@) =~= snippets(entries@.take(0)));
    while i < entries.len()
        invariant
            i <= entries.len(),
            chars::views(r@) == snippets(entries@.take(i as int)),
        decreases entries.len() - i,
    {
        let ghost before = chars::views(r@);
        let e = &entries[i];
        assert(entries@.take(i + 1).drop_last() =~= entries@.take(i as int));
        push_line(&mut r, "".to_owned());
        push_line(&mut r, text::cat3("  [", e.tool, "]"));
        push_line(&mut r, text::cat3("  path = \"", &e.config_value, "\""));
        assert(chars::views(r@) =~= before + seq![
            ""@,
            "  ["@ + e.tool@ + "]"@,
            "  path = \""@ + e.config_value@ + "\""@,
        ]);
        i += 1;
    }
    assert(entries@.take(i as int) =~= entries@);
    r
}

/// Reports what was vendored.
pub fn report_vendor(outcome: &VendorOutcome) -> (r: Vec<String>)
    ensures
        chars::views(r@) == vendor_report(*outcome),
{
    let mut lines: Vec<String> = Vec::new();
    assert(chars::views(lines@) =~= Seq::empty());
    if outcome.entries.len() == 0 && outcome.skipped.len() == 0 {
        push_line(
            &mut lines,
            "kempt: nothing to vendor (no [ktfmt] or [gjf] in config)".to_owned(),
        );
        assert(chars::views(lines@) =~= vendor_report(*outcome));
        return lines;
    }
    push_wrapped(
        &mut lines,
        &owned_list(&outcome.skipped),
        "kempt: [",
        "] already uses `path = ...`, skipping",
    );
    let ghost skipped = chars::views(lines@);
    if outcome.entries.len() > 0 {
        push_line(
            &mut lines,
            text::cat3(
                "vendored ",
                &text::decimal(outcome.entries.len() as u64),
                " artifact(s):",
            ),
        );
        text::append(&mut lines, &list_copied(&outcome.entries));
        push_line(&mut lines, "".to_owned());
        push_line(&mut lines, "update .kempt.toml to point at the vendored copies:".to_owned());
        text::append(&mut lines, &list_snippets(&outcome.entries));
    }
    assert(chars::views(lines@) =~= vendor_report(*outcome));
    lines
}

/// The line of a version that was bumped.
pub open spec fn change_line(c: Change) -> Seq<char> {
    "  ["@ + c.tool@ + "] "@ + c.from@ + " -> "@ + c.to@
}

/// The lines of all versions that were bumped.
pub open spec fn change_lines(changes: Seq<Change>) -> Seq<Seq<char>> {
    changes.map_values(|c: Change| change_line(c))
}

/// The lines that report an upgrade.
pub open spec fn upgrade_report(o: UpgradeOutcome, dry_run: bool) -> Seq<Seq<char>> {
    wrapped(chars::views(o.skipped@), "kempt: "@, ""@) + wrapped(
        o.already_current@.map_values(|w: &'static str| w@),
        "kempt: ["@,
        "] already on the latest version"@,
    ) + (if o.changes@.len() == 0 {
        seq!["kempt: nothing to upgrade"@]
    } else {
        seq![
            "kempt: "@ + (if dry_run {
                "would update"@
            } else {
                "updated"@
            }) + " "@ + chars::decimal(o.changes@.len()) + " tool(s):"@,
        ] + change_lines(o.changes@) + seq![
            ""@,
            if dry_run {
                "Re-run without --dry-run to apply."@
            } else {
                "Run `kempt update` to download the new version(s) into the cache."@
            },
        ]
    })
}

fn list_changes(changes: &Vec<Change>) -> (r: Vec<String>)
    ensures
        chars::views(r@) == change_lines(changes@),
{
    let mut r: Vec<String> = Vec::new();
    let mut i: usize = 0;
    while i < changes.len()
        invariant
            i <= changes.len(),
            chars::views(r@) =~= change_lines(changes@.take(i as int)),
        decreases changes.len() - i,
    {
        let c = &changes[i];
        let mut line = text::cat4("  [", c.tool, "] ", &c.from);
        line.push_str(" -> ");
        line.push_str(&c.to);
        push_line(&mut r, line);
        assert(change_lines(changes@.take(i + 1)) =~= change_lines(changes@.take(i as int)).push(
            change_line(changes@[i as int]),
        ));
        i += 1;
    }
    assert(changes@.take(i as int) =~= changes@);
    r
}

/// Reports an upgrade.
pub fn report_upgrade(outcome: &UpgradeOutcome, dry_run: bool) -> (r: Vec<String>)
    ensures
        chars::views(r@) == upgrade_report(*outcome, dry_run),
{
    let mut lines: Vec<String> = Vec::new();
    assert(chars::views(lines@) =~= Seq::empty());
    push_wrapped(&mut lines, &outcome.skipped, "kempt: ", "");
    push_wrapped(
        &mut lines,
        &owned_list(&outcome.already_current),
        "kempt: [",
        "] already on the latest version",
    );
    if outcome.changes.len() == 0 {
        push_line(&mut lines, "kempt: nothing to upgrade".to_owned());
    } else {
        let verb = if dry_run {
            "would update"
        } else {
            "updated"
        };
        let mut head = text::cat4(
            "kempt: ",
            verb,
            " ",
            &text::decimal(outcome.changes.len() as u64),
        );
        head.push_str(" tool(s):");
        push_line(&mut lines, head);
        text::append(&mut lines, &list_changes(&outcome.changes));
        push_line(&mut lines, "".to_owned());
        let advice = if dry_run {
            "Re-run without --dry-run to apply."
        } else {
            "Run `kempt update` to download the new version(s) into the cache."
        };
        push_line(&mut lines, advice.to_owned());
    }
    assert(chars::views(lines@) =~= upgrade_report(*outcome, dry_run));
    lines
}

/// Each text stands between the two others, in order.
pub proof fn texts_are_wrapped_one_by_one(
    texts: Seq<Seq<char>>,
    before: Seq<char>,
    after: Seq<char>,
)
    ensures
        wrapped(texts, before, after) == texts.map_values(|t: Seq<char>| before + t + after),
    decreases texts.len(),
{
    let m = texts.map_values(|t: Seq<char>| before + t + after);
    if texts.len() > 0 {
        let t = texts.drop_last();
        texts_are_wrapped_one_by_one(t, before, after);
        assert(m =~= t.map_values(|t: Seq<char>| before + t + after).push(
            before + texts.last() + after,
        ));
    } else {
        assert(m =~= Seq::empty());
    }
}

/// Padding keeps the text and adds spaces up to the width, and nothing to a text
/// that is as wide already.
pub proof fn padding_adds_spaces(s: Seq<char>, width: nat)
    ensures
        padded(s, width).len() == if s.len() < width {
            width
        } else {
            s.len()
        },
        padded(s, width).take(s.len() as int) == s,
        forall|i: int| s.len() <= i < padded(s, width).len() ==> #[trigger] padded(s, width)[i]
            == ' ',
    decreases width - s.len(),
{
    if s.len() < width {
        let t = s.push(' ');
        padding_adds_spaces(t, width);
        let p = padded(s, width);
        assert(p.take(s.len() as int) =~= p.take(t.len() as int).drop_last());
        assert(p[s.len() as int] == p.take(t.len() as int)[s.len() as int]);
    } else {
        assert(s.take(s.len() as int) =~= s);
    }
}

/// The starter files that were written are named one by one; where none was, the
/// report says that there was nothing to do.
pub proof fn written_files_are_named(written: Seq<Seq<char>>, k: int)
    ensures
        init_report(Seq::empty()) == seq!["kempt: nothing to do (config already exists)"@],
        written.len() > 0 ==> init_report(written).len() == written.len(),
        0 <= k < written.len() ==> init_report(written)[k] == "created "@ + written[k],
{
    reveal_strlit("");
    texts_are_wrapped_one_by_one(written, "created "@, ""@);
    if 0 <= k < written.len() {
        assert("created "@ + written[k] + ""@ =~= "created "@ + written[k]);
    }
}

/// The hook says how many files it staged again, and nothing where there were
/// none.
pub proof fn staged_files_are_counted(n: nat)
    ensures
        hook_report(0).len() == 0,
        n > 0 ==> hook_report(n) == seq!["kempt: re-staged "@ + chars::decimal(n) + " file(s)"@],
{
}

/// Each cached file has a line with its name and its size; an empty cache is
/// named by its directory.
pub proof fn cached_files_are_listed(root: Seq<char>, entries: Seq<CacheEntry>, k: int)
    ensures
        cache_report(root, Seq::empty()) == seq!["kempt: cache is empty ("@ + root + ")"@],
        entries.len() > 0 ==> cache_report(root, entries).len() == entries.len() + 1
            && cache_report(root, entries)[0] == root + ":"@,
        0 <= k < entries.len() ==> ({
            let line = cache_report(root, entries)[k + 1];
            &&& chars::ends_with(line, units::human(entries[k].size as nat))
            &&& fspath::base_name(entries[k].path@) matches Some(name) ==> chars::starts_with(
                line,
                seq![' ', ' '] + name,
            )
            &&& (fspath::base_name(entries[k].path@) matches Some(name) && name.len() <= 32)
                ==> line.len() == 35 + units::human(entries[k].size as nat).len()
        }),
{
    reveal_strlit("  ");
    reveal_strlit(" ");
    assert("  "@ =~= seq![' ', ' ']);
    if 0 <= k < entries.len() {
        let e = entries[k];
        let line = cache_report(root, entries)[k + 1];
        assert(line == cache_line(e));
        let h = units::human(e.size as nat);
        assert(line.skip(line.len() - h.len()) =~= h);
        if let Some(name) = fspath::base_name(e.path@) {
            padding_adds_spaces(name, 32);
            let p = padded(name, 32);
            let n = name.len() as int;
            assert(line.take(n + 2) =~= seq![' ', ' '] + p.take(n));
        }
    }
}

/// The settings of each copied formatter take three lines: an empty one, the
/// section of the tool, and the path of the copy.
pub proof fn snippets_show_each_tool(entries: Seq<VendorEntry>, k: int)
    requires
        0 <= k < entries.len(),
    ensures
        snippets(entries).len() == 3 * entries.len(),
        snippets(entries)[3 * k] == ""@,
        snippets(entries)[3 * k + 1] == "  ["@ + entries[k].tool@ + "]"@,
        snippets(entries)[3 * k + 2] == "  path = \""@ + entries[k].config_value@ + "\""@,
    decreases entries.len(),
{
    let t = entries.drop_last();
    if t.len() > 0 {
        snippets_show_each_tool(t, if k < t.len() { k } else { 0 });
        if k < t.len() {
            assert(t[k] == entries[k]);
        }
    } else {
        assert(snippets(t) =~= Seq::<Seq<char>>::empty());
    }
}

/// What was vendored is reported in order: the tools that were skipped, how many
/// were copied, each of them, and the settings that use the copies.
pub proof fn vendored_tools_are_reported(o: VendorOutcome, k: int)
    ensures
        o.entries@.len() == 0 && o.skipped@.len() == 0 ==> vendor_report(o) == seq![
            "kempt: nothing to vendor (no [ktfmt] or [gjf] in config)"@,
        ],
        o.entries@.len() == 0 && o.skipped@.len() > 0 ==> vendor_report(o).len()
            == o.skipped@.len(),
        0 <= k < o.skipped@.len() ==> vendor_report(o)[k] == "kempt: ["@ + o.skipped@[k]@
            + "] already uses `path = ...`, skipping"@,
        o.entries@.len() > 0 ==> ({
            let s = o.skipped@.len();
            let n = o.entries@.len();
            &&& vendor_report(o).len() == s + 4 * n + 3
            &&& vendor_report(o)[s as int] == "vendored "@ + chars::decimal(n) + " artifact(s):"@
            &&& 0 <= k < n ==> vendor_report(o)[s + 1 + k] == "  "@ + o.entries@[k].tool@ + " "@
                + o.entries@[k].version@ + " -> "@ + o.entries@[k].dest@
            &&& vendor_report(o)[(s + n + 2) as int]
                == "update .kempt.toml to point at the vendored copies:"@
            &&& 0 <= k < n ==> vendor_report(o)[s + n + 3 + 3 * k + 1] == "  ["@
                + o.entries@[k].tool@ + "]"@
            &&& 0 <= k < n ==> vendor_report(o)[s + n + 3 + 3 * k + 2] == "  path = \""@
                + o.entries@[k].config_value@ + "\""@
        }),
{
    let skipped = o.skipped@.map_values(|w: &'static str| w@);
    texts_are_wrapped_one_by_one(
        skipped,
        "kempt: ["@,
        "] already uses `path = ...`, skipping"@,
    );
    if o.entries@.len() > 0 {
        snippets_show_each_tool(o.entries@, if 0 <= k < o.entries@.len() { k } else { 0 });
    }
}

/// What an upgrade did is reported in order: what was skipped, what is current,
/// and each change with the versions before and after, or that there was none.
pub proof fn upgrades_are_reported(o: UpgradeOutcome, dry_run: bool, k: int)
    ensures
        ({
            let lines = upgrade_report(o, dry_run);
            let s = o.skipped@.len();
            let c = o.already_current@.len();
            let n = o.changes@.len();
            &&& 0 <= k < s ==> lines[k] == "kempt: "@ + o.skipped@[k]@
            &&& 0 <= k < c ==> lines[s + k] == "kempt: ["@ + o.already_current@[k]@
                + "] already on the latest version"@
            &&& n == 0 ==> lines.len() == s + c + 1 && lines[(s + c) as int]
                == "kempt: nothing to upgrade"@
            &&& n > 0 ==> lines.len() == s + c + n + 3
            &&& n > 0 && dry_run ==> lines[(s + c) as int] == "kempt: "@ + "would update"@ + " "@
                + chars::decimal(n) + " tool(s):"@ && lines[(s + c + n + 2) as int]
                == "Re-run without --dry-run to apply."@
            &&& n > 0 && !dry_run ==> lines[(s + c) as int] == "kempt: "@ + "updated"@ + " "@
                + chars::decimal(n) + " tool(s):"@ && lines[(s + c + n + 2) as int]
                == "Run `kempt update` to download the new version(s) into the cache."@
            &&& 0 <= k < n ==> lines[s + c + 1 + k] == "  ["@ + o.changes@[k].tool@ + "] "@
                + o.changes@[k].from@ + " -> "@ + o.changes@[k].to@
        }),
{
    reveal_strlit("");
    texts_are_wrapped_one_by_one(chars::views(o.skipped@), "kempt: "@, ""@);
    texts_are_wrapped_one_by_one(
        o.already_current@.map_values(|w: &'static str| w@),
        "kempt: ["@,
        "] already on the latest version"@,
    );
    if 0 <= k < o.skipped@.len() {
        assert("kempt: "@ + o.skipped@[k]@ + ""@ =~= "kempt: "@ + o.skipped@[k]@);
    }
}

} // verus!
