//! The local snapshots of a source: making one, finding the one before, and cleaning up.

use crate::btrfs::{
    checking_subvolume, create_snapshot, creating_snapshot, delete_subvolume, deleting_subvolume,
    ensure_dir, ensuring_dir, is_subvolume, rename_subvolume, renaming,
};
use crate::command_runner::{complain, complaining, failed, launch, launching, Area};
use crate::config::{Source, SourceConfig};
use crate::error::{fault_text, BackupError, Fault};
#[allow(unused_imports)]
use crate::journal::{
    bind, call, drive, fail, group_plan, ok, present, run, say, shown, then, Call, Command, Printed,
    Session, Stop, Tone, Try,
};
use crate::path::{join, joined_path, quoted, quoted_path};
use crate::text::{
    cat2, cat3, cat4, decimal, lemma_lines_joined, lemma_words_before_space, lemma_words_trimmed,
    lines, lines_of, lossy, lossy_text, not_a_number_text, number, parse, parsed, same, starts_with,
    trim, trimmed, without_cr, words, words_of,
};
use vstd::prelude::*;
use vstd::seq_lib::lemma_sorted_unique;

verus! {

/// A source, with the name of the backup that its snapshots belong to.
pub struct SourceSnapshot<'a> {
    source: &'a SourceConfig,
    config_name: &'a str,
}

/// What a [`SourceSnapshot`] holds.
pub struct Owned {
    pub source: Source,
    pub config: Seq<char>,
}

impl<'a> DeepView for SourceSnapshot<'a> {
    type V = Owned;

    closed spec fn deep_view(&self) -> Owned {
        Owned { source: self.source.deep_view(), config: self.config_name@ }
    }
}

/// Whether a subvolume stands at a path.
#[verifier::opaque]
pub open spec fn finding_subvolume(path: Seq<char>) -> Try<bool> {
    then(
        present(path),
        |there: bool|
            if there {
                checking_subvolume(path)
            } else {
                ok(false)
            },
    )
}

/// Whether a subvolume stands at a path.
fn subvolume_at(s: &mut Session, path: &str) -> (r: Result<bool, Stop>)
    ensures
        drive(finding_subvolume(path@), old(s)@) == (final(s)@, shown(r)),
{
    broadcast use group_plan;

    reveal(finding_subvolume);
    if s.present(path)? {
        is_subvolume(s, path)
    } else {
        Ok(false)
    }
}

/// Deletes the subvolume at a path, where there is one, and says so.
#[verifier::opaque]
pub open spec fn deleting_if_there(path: Seq<char>, msg: Seq<char>) -> Try<()> {
    then(
        finding_subvolume(path),
        |there: bool|
            if there {
                then(say(Tone::Detail, msg + path), |u: ()| deleting_subvolume(path))
            } else {
                ok(())
            },
    )
}

/// Deletes the subvolume at a path, where there is one, and says so.
fn delete_if_there(s: &mut Session, path: &str, msg: &str) -> (r: Result<(), Stop>)
    ensures
        drive(deleting_if_there(path@, msg@), old(s)@) == (final(s)@, shown(r)),
{
    broadcast use group_plan;

    reveal(deleting_if_there);
    if subvolume_at(s, path)? {
        s.say(Tone::Detail, cat2(msg, path).as_str())?;
        delete_subvolume(s, path)
    } else {
        Ok(())
    }
}

impl Owned {
    /// The name of the snapshot where snapper does not create it.
    pub open spec fn base_name(self) -> Seq<char> {
        self.source.snapshot_name + "_"@ + self.config
    }

    /// The description of the snapshots that snapper creates.
    pub open spec fn description(self) -> Seq<char> {
        "btrbak_"@ + self.config
    }

    /// The snapper configuration, which has to be named.
    pub open spec fn snapper(self) -> Result<Seq<char>, Fault> {
        match self.source.snapper_config {
            Some(c) => Ok(c),
            None => Err(
                Fault::Config(
                    "snapper_config must be set when use_snapper is true for source: "@
                        + self.source.path,
                ),
            ),
        }
    }
}

/// Makes room for a new snapshot: the snapshot of the last run becomes the previous one.
pub open spec fn keeping_previous(path: Seq<char>, prev: Seq<char>) -> Try<Option<Seq<char>>> {
    then(
        finding_subvolume(path),
        |there: bool|
            if there {
                then(
                    say(Tone::Detail, "Preserving previous snapshot for incremental backup"@),
                    |u: ()| then(renaming(path, prev), |u: ()| ok(Some(prev))),
                )
            } else {
                ok(None)
            },
    )
}

/// Creates a snapshot without snapper. The outcome is the snapshot and, where there was one
/// before, its parent.
#[verifier::opaque]
pub open spec fn creating_manual(
    source: Source,
    source_path: Seq<char>,
    dir: Seq<char>,
    config: Seq<char>,
) -> Try<(Seq<char>, Option<Seq<char>>)> {
    let base = Owned { source, config }.base_name();
    let path = joined_path(dir, base);
    let prev = joined_path(dir, base + "_prev"@);
    then(
        deleting_if_there(prev, "Cleaning up old previous snapshot: "@),
        |u: ()|
            then(
                keeping_previous(path, prev),
                |parent: Option<Seq<char>>|
                    then(
                        creating_snapshot(source_path, path),
                        |u: ()|
                            then(
                                say(Tone::Detail, "Created snapshot at: "@ + path),
                                |u: ()| ok((path, parent)),
                            ),
                    ),
            ),
    )
}

/// `snapper -c <config> create -t single -d <description> --read-only --print-number`.
pub open spec fn create_call(config: Seq<char>, description: Seq<char>) -> Call {
    call("snapper"@).arg("-c"@).arg(config).arg("create"@).arg("-t"@).arg("single"@).arg("-d"@).arg(
        description,
    ).arg("--read-only"@).arg("--print-number"@)
}

/// Where snapper keeps the snapshot with a number, below its directory.
pub open spec fn snapper_place(id: u64) -> Seq<char> {
    decimal(id as nat) + "/snapshot"@
}

/// Has snapper create a snapshot; the outcome is where it is, below the directory.
#[verifier::opaque]
pub open spec fn creating_by_snapper(w: Owned) -> Try<Seq<char>> {
    match w.snapper() {
        Err(e) => fail(e),
        Ok(config) => then(
            launching(create_call(config, w.description())),
            |o: Printed|
                if !o.success {
                    complaining(
                        Area::Btrfs,
                        "Failed to create snapper snapshot for config '"@ + config + "': "@,
                        o,
                    )
                } else {
                    match parsed(trimmed(lossy_text(o.stdout))) {
                        Ok(id) => ok(snapper_place(id)),
                        Err(e) => fail(
                            Fault::Btrfs(
                                "Failed to parse snapshot ID from snapper output '"@ + lossy_text(
                                    o.stdout,
                                ) + "': "@ + not_a_number_text(e),
                            ),
                        ),
                    }
                },
        ),
    }
}

/// The number in a line of snapper's list, where it is a single snapshot with the description.
pub open spec fn listed_id(line: Seq<char>, description: Seq<char>) -> Option<u64> {
    let parts = words_of(line);
    if trimmed(line).len() == 0 || "#"@.is_prefix_of(line) || parts.len() < 3 {
        None
    } else if parts[2] == "single"@ && parts[1] == description {
        match parsed(parts[0]) {
            Ok(id) => Some(id),
            Err(_) => None,
        }
    } else {
        None
    }
}

/// The numbers in the lines of snapper's list, in their order.
pub open spec fn listed_ids(all: Seq<Seq<char>>, description: Seq<char>) -> Seq<u64>
    decreases all.len(),
{
    if all.len() == 0 {
        Seq::empty()
    } else {
        match listed_id(all.last(), description) {
            Some(id) => listed_ids(all.drop_last(), description).push(id),
            None => listed_ids(all.drop_last(), description),
        }
    }
}

/// The numbers of two lists of lines, one after the other.
proof fn lemma_listed_apart(x: Seq<Seq<char>>, y: Seq<Seq<char>>, description: Seq<char>)
    ensures
        listed_ids(x + y, description) == listed_ids(x, description) + listed_ids(y, description),
    decreases y.len(),
{
    if y.len() == 0 {
        assert(x + y =~= x);
        assert(listed_ids(x, description) + listed_ids(y, description) =~= listed_ids(
            x,
            description,
        ));
    } else {
        assert((x + y).drop_last() =~= x + y.drop_last());
        lemma_listed_apart(x, y.drop_last(), description);
        assert(listed_ids(x + y, description) =~= listed_ids(x, description) + listed_ids(
            y,
            description,
        ));
    }
}

/// One line on its own.
proof fn lemma_listed_one(line: Seq<char>, description: Seq<char>)
    ensures
        listed_ids(seq![line], description) == (match listed_id(line, description) {
            Some(id) => seq![id],
            None => Seq::empty(),
        }),
{
    reveal_with_fuel(listed_ids, 2);
    assert(seq![line].drop_last() =~= Seq::<Seq<char>>::empty());
    assert(listed_ids(Seq::empty(), description) =~= Seq::<u64>::empty());
    if let Some(id) = listed_id(line, description) {
        assert(Seq::<u64>::empty().push(id) =~= seq![id]);
    }
}

/// A carriage return at the end of a line makes no difference.
proof fn lemma_listed_cr(line: Seq<char>, description: Seq<char>)
    ensures
        listed_id(without_cr(line), description) == listed_id(line, description),
{
    let short = without_cr(line);
    if short != line {
        reveal_strlit("#");
        assert(short.push('\r') =~= line);
        lemma_words_before_space(short, '\r');
        lemma_words_trimmed(line);
        lemma_words_trimmed(short);
        if short.len() > 0 {
            assert(short[0] == line[0]);
        }
        assert("#"@.is_prefix_of(short) == "#"@.is_prefix_of(line)) by {
            if "#"@.is_prefix_of(line) {
                assert(line.subrange(0, 1)[0] == "#"@[0]);
                assert("#"@ =~= short.subrange(0, 1));
            }
            if "#"@.is_prefix_of(short) {
                assert("#"@ =~= line.subrange(0, 1));
            }
        }
    }
}

/// Every line of snapper's list counts on its own: the numbers in two texts with a line feed
/// between them are those in the first, followed by those in the second.
pub proof fn lemma_listed_line_by_line(a: Seq<char>, b: Seq<char>, description: Seq<char>)
    ensures
        listed_ids(lines_of(a + "\n"@ + b), description) == listed_ids(lines_of(a), description)
            + listed_ids(lines_of(b), description),
{
    reveal_strlit("\n");
    assert("\n"@ =~= seq!['\n']);
    lemma_lines_joined(a, b);
    let (x, y) = (lines_of(a), lines_of(b));
    let all = lines_of(a + seq!['\n'] + b);
    let none = Seq::<char>::empty();
    lemma_listed_apart(x, y, description);
    if all == x + seq![none] + y {
        lemma_listed_apart(x + seq![none], y, description);
        lemma_listed_apart(x, seq![none], description);
        lemma_listed_one(none, description);
        assert(trimmed(none).len() == 0);
        assert(listed_ids(x, description) + listed_ids(seq![none], description) =~= listed_ids(
            x,
            description,
        ));
    } else if all != x + y {
        let last = x.last();
        let front = x.drop_last();
        lemma_listed_apart(front + seq![without_cr(last)], y, description);
        lemma_listed_apart(front, seq![without_cr(last)], description);
        lemma_listed_apart(front, seq![last], description);
        lemma_listed_one(last, description);
        lemma_listed_one(without_cr(last), description);
        lemma_listed_cr(last, description);
        assert(front + seq![last] =~= x);
    }
}

/// The order in which the newest snapshot comes first.
pub open spec fn newest_first() -> spec_fn(u64, u64) -> bool {
    |a: u64, b: u64| a >= b
}

/// `snapper -c <config> list --columns number,description,type`.
pub open spec fn list_call(config: Seq<char>) -> Call {
    call("snapper"@).arg("-c"@).arg(config).arg("list"@).arg("--columns"@).arg(
        "number,description,type"@,
    )
}

/// The numbers of the snapshots that snapper created for the backup, newest first.
#[verifier::opaque]
pub open spec fn listing(w: Owned) -> Try<Seq<u64>> {
    match w.snapper() {
        Err(e) => fail(e),
        Ok(config) => then(
            run(list_call(config)),
            |o: Printed|
                if o.success {
                    ok(
                        listed_ids(lines_of(lossy_text(o.stdout)), w.description()).sort_by(
                            newest_first(),
                        ),
                    )
                } else {
                    fail(
                        Fault::Btrfs(
                            "Failed to list snapper snapshots for config '"@ + config + "': "@
                                + lossy_text(o.stderr),
                        ),
                    )
                },
        ),
    }
}

/// The snapshot before the newest one, where it is a subvolume.
#[verifier::opaque]
pub open spec fn finding_previous(w: Owned, dir: Seq<char>) -> Try<Option<Seq<char>>> {
    then(
        listing(w),
        |ids: Seq<u64>|
            if ids.len() >= 2 {
                let path = joined_path(dir, snapper_place(ids[1]));
                then(
                    checking_subvolume(path),
                    |there: bool|
                        if there {
                            then(
                                say(Tone::Detail, "Found previous snapper snapshot at: "@ + path),
                                |u: ()| ok(Some(path)),
                            )
                        } else {
                            then(
                                say(
                                    Tone::Warning,
                                    "Previous snapper snapshot path is not a subvolume: "@ + path,
                                ),
                                |u: ()| ok(None),
                            )
                        },
                )
            } else {
                then(
                    say(
                        Tone::Detail,
                        "No previous snapper snapshot found for incremental backup"@,
                    ),
                    |u: ()| ok(None),
                )
            },
    )
}

/// Has snapper create a snapshot and finds its parent.
#[verifier::opaque]
pub open spec fn creating_with_parent(w: Owned, dir: Seq<char>) -> Try<
    (Seq<char>, Option<Seq<char>>),
> {
    then(
        creating_by_snapper(w),
        |place: Seq<char>|
            then(
                checking_subvolume(joined_path(dir, place)),
                |there: bool|
                    if !there {
                        fail(
                            Fault::Btrfs(
                                "Snapper snapshot not found or not a subvolume: "@ + joined_path(
                                    dir,
                                    place,
                                ),
                            ),
                        )
                    } else {
                        then(
                            say(
                                Tone::Detail,
                                "Using snapper snapshot at: "@ + joined_path(dir, place),
                            ),
                            |u: ()|
                                then(
                                    finding_previous(w, dir),
                                    |parent: Option<Seq<char>>|
                                        ok((joined_path(dir, place), parent)),
                                ),
                        )
                    },
            ),
    )
}

/// Creates a local snapshot of the source; the outcome is the snapshot and its parent.
#[verifier::opaque]
pub open spec fn creating_local(w: Owned) -> Try<(Seq<char>, Option<Seq<char>>)> {
    let dir = joined_path(w.source.path, w.source.snapshot_dir);
    then(
        checking_subvolume(w.source.path),
        |there: bool|
            if !there {
                fail(
                    Fault::Btrfs(
                        "Source path is not a btrfs subvolume: "@ + quoted_path(w.source.path),
                    ),
                )
            } else {
                then(
                    ensuring_dir(dir),
                    |u: ()|
                        if w.source.use_snapper {
                            creating_with_parent(w, dir)
                        } else {
                            creating_manual(w.source, w.source.path, dir, w.config)
                        },
                )
            },
    )
}

/// `snapper -c <config> delete <number>`.
pub open spec fn delete_call(config: Seq<char>, id: u64) -> Call {
    call("snapper"@).arg("-c"@).arg(config).arg("delete"@).arg(decimal(id as nat))
}

/// Has snapper delete the snapshots from `i` on. A failure is only warned of.
pub open spec fn deleting_listed(config: Seq<char>, ids: Seq<u64>, i: int) -> Try<()>
    decreases ids.len() - i,
{
    if i < 0 || i >= ids.len() {
        ok(())
    } else {
        then(
            say(Tone::Detail, "Deleting old snapper snapshot #"@ + decimal(ids[i] as nat)),
            |u: ()|
                then(
                    run(delete_call(config, ids[i])),
                    |o: Printed|
                        then(
                            if o.success {
                                ok(())
                            } else {
                                say(
                                    Tone::Warning,
                                    "Failed to delete snapper snapshot #"@ + decimal(
                                        ids[i] as nat,
                                    ) + ": "@ + lossy_text(o.stderr),
                                )
                            },
                            |u: ()| deleting_listed(config, ids, i + 1),
                        ),
                ),
        )
    }
}

/// Has snapper delete all snapshots of the backup but the newest. Where they cannot be listed,
/// that is only warned of.
#[verifier::opaque]
pub open spec fn cleaning_by_snapper(w: Owned) -> Try<()> {
    match w.snapper() {
        Err(e) => fail(e),
        Ok(config) => bind(
            listing(w),
            |r: Result<Seq<u64>, Fault>|
                match r {
                    Ok(ids) => deleting_listed(config, ids, 1),
                    Err(e) => say(
                        Tone::Warning,
                        "Failed to list snapper snapshots for cleanup: "@ + fault_text(e),
                    ),
                },
        ),
    }
}

/// Deletes the snapshots that the next run does not need.
#[verifier::opaque]
pub open spec fn cleaning(w: Owned, parent: Option<Seq<char>>) -> Try<()> {
    if w.source.use_snapper {
        cleaning_by_snapper(w)
    } else {
        match parent {
            Some(path) => deleting_if_there(path, "Deleting old local snapshot: "@),
            None => ok(()),
        }
    }
}

/// The number in a line of snapper's list, where it is a single snapshot with the description.
fn id_in(line: &str, description: &str) -> (r: Option<u64>)
    ensures
        r == listed_id(line@, description@),
{
    if trim(line).as_str().is_empty() || starts_with(line, "#") {
        return None;
    }
    let parts = words(line);
    assert(parts@.len() == words_of(line@).len());
    if parts.len() < 3 {
        return None;
    }
    assert(parts@[0]@ == words_of(line@)[0]);
    assert(parts@[1]@ == words_of(line@)[1]);
    assert(parts@[2]@ == words_of(line@)[2]);
    if same(parts[2].as_str(), "single") && same(parts[1].as_str(), description) {
        match parse(parts[0].as_str()) {
            Ok(id) => Some(id),
            Err(_) => None,
        }
    } else {
        None
    }
}

/// Puts the newest snapshot first.
fn sort_newest_first(ids: &mut Vec<u64>)
    ensures
        final(ids)@ == old(ids)@.sort_by(newest_first()),
{
    let n: usize = ids.len();
    let mut i: usize = 0;
    while i < n
        invariant
            i <= n,
            n == ids@.len(),
            ids@.to_multiset() == old(ids)@.to_multiset(),
            forall|a: int, b: int| 0 <= a < b < i ==> ids@[a] >= ids@[b],
        decreases n - i,
    {
        let mut j: usize = i;
        while j > 0 && ids[j - 1] < ids[j]
            invariant
                j <= i < n,
                n == ids@.len(),
                ids@.to_multiset() == old(ids)@.to_multiset(),
                forall|a: int, b: int|
                    0 <= a < b <= i && a != j && b != j ==> ids@[a] >= ids@[b],
                forall|b: int| j < b <= i ==> ids@[j as int] >= ids@[b],
            decreases j,
        {
            let x: u64 = ids[j];
            let y: u64 = ids[j - 1];
            let ghost before = ids@;
            ids.set(j, y);
            ids.set(j - 1, x);
            proof {
                lemma_swap(before, j - 1, j as int);
            }
            j -= 1;
        }
        assert forall|a: int, b: int| 0 <= a < b < i + 1 implies ids@[a] >= ids@[b] by {
            if b == j && a < j - 1 {
                assert(ids@[a] >= ids@[j - 1]);
            }
        }
        i += 1;
    }
    proof {
        old(ids)@.lemma_sort_by_ensures(newest_first());
        lemma_sorted_unique(ids@, old(ids)@.sort_by(newest_first()), newest_first());
    }
}

/// Swapping two elements keeps the multiset.
proof fn lemma_swap(s: Seq<u64>, i: int, j: int)
    requires
        0 <= i < j < s.len(),
    ensures
        s.update(j, s[i]).update(i, s[j]).to_multiset() == s.to_multiset(),
{
    broadcast use vstd::seq_lib::group_to_multiset_ensures;

    let t = s.update(j, s[i]);
    assert(t.to_multiset() =~= s.to_multiset().insert(s[i]).remove(s[j]));
    assert(t.update(i, s[j]).to_multiset() =~= t.to_multiset().insert(s[j]).remove(t[i]));
    assert(s.to_multiset().count(s[j]) > 0);
    assert(t.update(i, s[j]).to_multiset() =~= s.to_multiset());
}

/// Has snapper delete the snapshots behind the newest.
fn delete_listed(s: &mut Session, config: &str, ids: &Vec<u64>) -> (r: Result<(), Stop>)
    ensures
        drive(deleting_listed(config@, ids@, 1), old(s)@) == (final(s)@, shown(r)),
{
    broadcast use group_plan;

    let mut i: usize = 1;
    while i < ids.len()
        invariant
            1 <= i,
            drive(deleting_listed(config@, ids@, 1), old(s)@) == drive(
                deleting_listed(config@, ids@, i as int),
                s@,
            ),
        decreases ids@.len() - i,
    {
        broadcast use group_plan;

        let id = number(ids[i]);
        s.say(Tone::Detail, cat2("Deleting old snapper snapshot #", id.as_str()).as_str())?;
        let o = s.run(
            Command::new("snapper").arg("-c").arg(config).arg("delete").arg(id.as_str()),
        )?;
        if !o.success {
            let stderr = lossy(&o.stderr);
            let msg = cat4(
                "Failed to delete snapper snapshot #",
                id.as_str(),
                ": ",
                stderr.as_str(),
            );
            s.say(Tone::Warning, msg.as_str())?;
        }
        i += 1;
    }
    Ok(())
}

impl<'a> SourceSnapshot<'a> {
    /// A source, with the name of the backup that its snapshots belong to.
    pub fn new(source: &'a SourceConfig, config_name: &'a str) -> (r: Self)
        ensures
            r.deep_view() == (Owned { source: source.deep_view(), config: config_name@ }),
    {
        SourceSnapshot { source, config_name }
    }

    /// The snapper configuration, which has to be named.
    pub fn snapper_config(&self) -> (r: Result<&'a str, BackupError>)
        ensures
            match r {
                Ok(c) => self.deep_view().snapper() == Ok::<Seq<char>, Fault>(c@),
                Err(e) => self.deep_view().snapper() == Err::<Seq<char>, Fault>(e.deep_view()),
            },
    {
        match &self.source.snapper_config {
            Some(c) => Ok(c.as_str()),
            None => Err(
                BackupError::Config(
                    cat2(
                        "snapper_config must be set when use_snapper is true for source: ",
                        self.source.path.as_str(),
                    ),
                ),
            ),
        }
    }

    /// The numbers in snapper's list of the single snapshots with the description.
    pub fn parse_btrbak_snapper_snapshot_ids(output: &str, expected_description: &str) -> (r: Vec<
        u64,
    >)
        ensures
            r@ == listed_ids(lines_of(output@), expected_description@),
    {
        let all = lines(output);
        let ghost every = lines_of(output@);
        let mut out: Vec<u64> = Vec::new();
        let mut i: usize = 0;
        assert(every.take(0) =~= Seq::<Seq<char>>::empty());
        while i < all.len()
            invariant
                i <= all@.len(),
                all.deep_view() == every,
                out@ =~= listed_ids(every.take(i as int), expected_description@),
            decreases all@.len() - i,
        {
            assert(all@[i as int]@ == every[i as int]);
            assert(every.take(i + 1).drop_last() =~= every.take(i as int));
            if let Some(id) = id_in(all[i].as_str(), expected_description) {
                out.push(id);
            }
            i += 1;
        }
        assert(every.take(i as int) =~= every);
        out
    }

    /// Creates a snapshot without snapper.
    pub fn create_manual_local_snapshot(
        s: &mut Session,
        source: &SourceConfig,
        source_path: &str,
        snapshot_dir: &str,
        config_name: &str,
    ) -> (r: Result<(String, Option<String>), Stop>)
        ensures
            drive(
                creating_manual(source.deep_view(), source_path@, snapshot_dir@, config_name@),
                old(s)@,
            ) == (final(s)@, shown(r)),
    {
        broadcast use group_plan;

        reveal(creating_manual);
        let base = cat3(source.snapshot_name.as_str(), "_", config_name);
        let path = join(snapshot_dir, base.as_str());
        let prev = join(snapshot_dir, cat2(base.as_str(), "_prev").as_str());
        delete_if_there(s, prev.as_str(), "Cleaning up old previous snapshot: ")?;
        let parent = if subvolume_at(s, path.as_str())? {
            s.say(Tone::Detail, "Preserving previous snapshot for incremental backup")?;
            rename_subvolume(s, path.as_str(), prev.as_str())?;
            Some(prev)
        } else {
            None
        };
        create_snapshot(s, source_path, path.as_str())?;
        s.say(Tone::Detail, cat2("Created snapshot at: ", path.as_str()).as_str())?;
        Ok((path, parent))
    }

    /// Has snapper create a snapshot; gives where it is, below the directory.
    pub fn create_snapper_snapshot(&self, s: &mut Session) -> (r: Result<String, Stop>)
        ensures
            drive(creating_by_snapper(self.deep_view()), old(s)@) == (final(s)@, shown(r)),
    {
        broadcast use group_plan;

        reveal(creating_by_snapper);
        let config = match self.snapper_config() {
            Ok(c) => c,
            Err(e) => return Err(Stop::Failed(e)),
        };
        let description = cat2("btrbak_", self.config_name);
        let command = Command::new("snapper").arg("-c").arg(config).arg("create").arg("-t").arg(
            "single",
        ).arg("-d").arg(description.as_str()).arg("--read-only").arg("--print-number");
        let o = launch(s, command)?;
        if !o.success {
            let msg = cat3("Failed to create snapper snapshot for config '", config, "': ");
            return complain(s, Area::Btrfs, msg.as_str(), o);
        }
        let stdout = lossy(&o.stdout);
        match parse(trim(stdout.as_str()).as_str()) {
            Ok(id) => Ok(cat2(number(id).as_str(), "/snapshot")),
            Err(e) => {
                let msg = cat4(
                    "Failed to parse snapshot ID from snapper output '",
                    stdout.as_str(),
                    "': ",
                    e.message().as_str(),
                );
                Err(failed(Area::Btrfs, msg))
            },
        }
    }

    /// The numbers of the snapshots that snapper created for the backup, newest first.
    pub fn list_btrbak_snapper_snapshot_ids(&self, s: &mut Session) -> (r: Result<Vec<u64>, Stop>)
        ensures
            drive(listing(self.deep_view()), old(s)@) == (final(s)@, shown(r)),
    {
        broadcast use group_plan;

        reveal(listing);
        let config = match self.snapper_config() {
            Ok(c) => c,
            Err(e) => return Err(Stop::Failed(e)),
        };
        let o = s.run(
            Command::new("snapper").arg("-c").arg(config).arg("list").arg("--columns").arg(
                "number,description,type",
            ),
        )?;
        if !o.success {
            let msg = cat4(
                "Failed to list snapper snapshots for config '",
                config,
                "': ",
                lossy(&o.stderr).as_str(),
            );
            return Err(failed(Area::Btrfs, msg));
        }
        let stdout = lossy(&o.stdout);
        let description = cat2("btrbak_", self.config_name);
        let mut ids = Self::parse_btrbak_snapper_snapshot_ids(
            stdout.as_str(),
            description.as_str(),
        );
        sort_newest_first(&mut ids);
        assert(ids.deep_view() =~= ids@);
        Ok(ids)
    }

    /// The snapshot before the newest one, where it is a subvolume.
    pub fn find_previous_snapper_snapshot(&self, s: &mut Session, snapshot_dir: &str) -> (r: Result<
        Option<String>,
        Stop,
    >)
        ensures
            drive(finding_previous(self.deep_view(), snapshot_dir@), old(s)@) == (
                final(s)@,
                shown(r),
            ),
    {
        broadcast use group_plan;

        reveal(finding_previous);
        let ids = self.list_btrbak_snapper_snapshot_ids(s)?;
        assert(ids.deep_view() =~= ids@);
        if ids.len() < 2 {
            s.say(Tone::Detail, "No previous snapper snapshot found for incremental backup")?;
            return Ok(None);
        }
        let path = join(snapshot_dir, cat2(number(ids[1]).as_str(), "/snapshot").as_str());
        if is_subvolume(s, path.as_str())? {
            s.say(
                Tone::Detail,
                cat2("Found previous snapper snapshot at: ", path.as_str()).as_str(),
            )?;
            Ok(Some(path))
        } else {
            let msg = cat2("Previous snapper snapshot path is not a subvolume: ", path.as_str());
            s.say(Tone::Warning, msg.as_str())?;
            Ok(None)
        }
    }

    /// Has snapper create a snapshot and finds its parent.
    pub fn create_snapper_local_snapshot(&self, s: &mut Session, snapshot_dir: &str) -> (r: Result<
        (String, Option<String>),
        Stop,
    >)
        ensures
            drive(creating_with_parent(self.deep_view(), snapshot_dir@), old(s)@) == (
                final(s)@,
                shown(r),
            ),
    {
        broadcast use group_plan;

        reveal(creating_with_parent);
        let place = self.create_snapper_snapshot(s)?;
        let path = join(snapshot_dir, place.as_str());
        if !is_subvolume(s, path.as_str())? {
            let msg = cat2("Snapper snapshot not found or not a subvolume: ", path.as_str());
            return Err(failed(Area::Btrfs, msg));
        }
        s.say(Tone::Detail, cat2("Using snapper snapshot at: ", path.as_str()).as_str())?;
        let parent = self.find_previous_snapper_snapshot(s, snapshot_dir)?;
        Ok((path, parent))
    }

    /// Creates a local snapshot of the source; gives the snapshot and its parent.
    pub fn create_local_snapshot(&self, s: &mut Session) -> (r: Result<
        (String, Option<String>),
        Stop,
    >)
        ensures
            drive(creating_local(self.deep_view()), old(s)@) == (final(s)@, shown(r)),
    {
        broadcast use group_plan;

        reveal(creating_local);
        let source_path = self.source.path.as_str();
        if !is_subvolume(s, source_path)? {
            let msg = cat2(
                "Source path is not a btrfs subvolume: ",
                quoted(source_path).as_str(),
            );
            return Err(failed(Area::Btrfs, msg));
        }
        let dir = join(source_path, self.source.snapshot_dir.as_str());
        ensure_dir(s, dir.as_str())?;
        if self.source.use_snapper {
            self.create_snapper_local_snapshot(s, dir.as_str())
        } else {
            Self::create_manual_local_snapshot(
                s,
                self.source,
                source_path,
                dir.as_str(),
                self.config_name,
            )
        }
    }

    /// Has snapper delete all snapshots of the backup but the newest.
    pub fn cleanup_old_snapper_snapshots(&self, s: &mut Session) -> (r: Result<(), Stop>)
        ensures
            drive(cleaning_by_snapper(self.deep_view()), old(s)@) == (final(s)@, shown(r)),
    {
        broadcast use group_plan;

        reveal(cleaning_by_snapper);
        let config = match self.snapper_config() {
            Ok(c) => c,
            Err(e) => return Err(Stop::Failed(e)),
        };
        match self.list_btrbak_snapper_snapshot_ids(s) {
            Ok(ids) => {
                assert(ids.deep_view() =~= ids@);
                delete_listed(s, config, &ids)
            },
            Err(Stop::Pending) => Err(Stop::Pending),
            Err(Stop::Failed(e)) => {
                let msg = cat2(
                    "Failed to list snapper snapshots for cleanup: ",
                    e.message().as_str(),
                );
                s.say(Tone::Warning, msg.as_str())
            },
        }
    }

    /// Deletes the snapshots that the next run does not need.
    pub fn cleanup_old_snapshot(
        &self,
        s: &mut Session,
        local_parent_snapshot: Option<String>,
    ) -> (r: Result<(), Stop>)
        ensures
            drive(cleaning(self.deep_view(), local_parent_snapshot.deep_view()), old(s)@) == (
                final(s)@,
                shown(r),
            ),
    {
        broadcast use group_plan;

        reveal(cleaning);
        if self.source.use_snapper {
            return self.cleanup_old_snapper_snapshots(s);
        }
        match local_parent_snapshot {
            Some(path) => delete_if_there(s, path.as_str(), "Deleting old local snapshot: "),
            None => Ok(()),
        }
    }
}

}
