//! Free space on the benchmark nodes. Logs that grow with every benchmark fill a node's disk
//! quietly; deploys and databases then fail on a node that nobody looked at.
use crate::collector::{login, login_text};
use crate::config::{push_text, DiskConfig, LoadedConfig, NodeConfig};
use crate::join::{derefs, keep, value_views};
use crate::number::{apply, arithmetic, is_arithmetic, Number, Op};
use crate::numeral::{is_writer, write_number, written};
use crate::protocol::picked;
use crate::shell::{command_line, quote_command};
use crate::text::{
    append, chars_of, decimal, decimal_of, glue2, glue3, glue5, join, joined, lines, lines_of,
    lossy_text, number_of, parsed_number, same, string_of, text_from_lossy, texts, trim, trimmed,
    views, words, words_of,
};
use vstd::prelude::*;

verus! {

#[derive(Clone, Debug, PartialEq, Eq)]
pub struct MountFree {
    pub mount: String,
    pub free_bytes: u64,
}

#[verifier::ext_equal]
pub struct MountView {
    pub mount: Seq<char>,
    pub free_bytes: u64,
}

impl View for MountFree {
    type V = MountView;

    open spec fn view(&self) -> MountView {
        MountView { mount: self.mount@, free_bytes: self.free_bytes }
    }
}

#[derive(Clone, Copy, Debug, PartialEq, Eq, Structural)]
pub enum DiskLevel {
    Enough,
    Low,
    TooLow,
}

#[derive(Debug)]
pub struct NodeDisk {
    pub node: String,
    pub target: String,
    /// Mounts that hold the configured paths, or why they could not be measured.
    pub mounts: Result<Vec<MountFree>, String>,
}

/// Bytes in a mebibyte.
pub const MIB: u64 = 1_048_576;

/// How free space compares with the thresholds, in whole mebibytes.
pub open spec fn level_of(free_bytes: nat, min_free_mb: nat, warn_free_mb: nat) -> DiskLevel {
    let mib = free_bytes / 1_048_576;
    if mib < min_free_mb {
        DiskLevel::TooLow
    } else if mib < warn_free_mb {
        DiskLevel::Low
    } else {
        DiskLevel::Enough
    }
}

pub fn level(free_bytes: u64, disk: &DiskConfig) -> (r: DiskLevel)
    ensures
        r == level_of(
            free_bytes as nat,
            disk.node_min_free_mb as nat,
            disk.node_warn_free_mb as nat,
        ),
{
    let mib: u64 = free_bytes / MIB;
    if mib < disk.node_min_free_mb {
        DiskLevel::TooLow
    } else if mib < disk.node_warn_free_mb {
        DiskLevel::Low
    } else {
        DiskLevel::Enough
    }
}

pub open spec fn severity(level: DiskLevel) -> int {
    match level {
        DiskLevel::Enough => 0,
        DiskLevel::Low => 1,
        DiskLevel::TooLow => 2,
    }
}

/// More free space never makes the level worse.
pub proof fn more_space_is_no_worse(less: nat, more: nat, min_free_mb: nat, warn_free_mb: nat)
    requires
        less <= more,
    ensures
        severity(level_of(more, min_free_mb, warn_free_mb)) <= severity(
            level_of(less, min_free_mb, warn_free_mb),
        ),
{
    assert(less / 1_048_576 <= more / 1_048_576);
}

/// The first of the mounts with the least free space.
pub open spec fn emptiest(mounts: Seq<MountFree>, i: int) -> bool {
    &&& 0 <= i < mounts.len()
    &&& forall|j: int| 0 <= j < mounts.len() ==> mounts[i].free_bytes <= #[trigger] mounts[j].free_bytes
    &&& forall|j: int| 0 <= j < i ==> mounts[i].free_bytes < #[trigger] mounts[j].free_bytes
}

impl NodeDisk {
    /// The emptiest mount and how it compares with the thresholds.
    pub fn tightest(&self, disk: &DiskConfig) -> (r: Option<(&MountFree, DiskLevel)>)
        ensures
            match r {
                Some((mount, l)) => {
                    &&& self.mounts is Ok
                    &&& exists|i: int|
                        emptiest(self.mounts->Ok_0@, i) && *mount == #[trigger] self.mounts->Ok_0@[i]
                    &&& l == level_of(
                        mount.free_bytes as nat,
                        disk.node_min_free_mb as nat,
                        disk.node_warn_free_mb as nat,
                    )
                },
                None => self.mounts matches Ok(mounts) ==> mounts@.len() == 0,
            },
    {
        match &self.mounts {
            Ok(mounts) => {
                if mounts.len() == 0 {
                    return None;
                }
                let mut best: usize = 0;
                let mut i: usize = 1;
                while i < mounts.len()
                    invariant
                        1 <= i <= mounts@.len(),
                        best < i,
                        forall|j: int|
                            0 <= j < i ==> mounts@[best as int].free_bytes
                                <= #[trigger] mounts@[j].free_bytes,
                        forall|j: int|
                            0 <= j < best ==> mounts@[best as int].free_bytes
                                < #[trigger] mounts@[j].free_bytes,
                    decreases mounts.len() - i,
                {
                    if mounts[i].free_bytes < mounts[best].free_bytes {
                        best = i;
                    }
                    i += 1;
                }
                assert(emptiest(mounts@, best as int));
                let mount = &mounts[best];
                assert(*mount == mounts@[best as int]);
                Some((mount, level(mount.free_bytes, disk)))
            },
            Err(_) => None,
        }
    }
}

/// The free space of a mount in words: in gibibytes with one decimal, or in mebibytes below one.
pub open spec fn description(
    f: spec_fn(Op) -> Number,
    g: spec_fn(Number, u32) -> Seq<char>,
    mount: MountView,
) -> Seq<char> {
    let mib = (mount.free_bytes / 1_048_576) as u64;
    if mib >= 1024 {
        mount.mount + " has "@ + g(
            f(Op::Divide(f(Op::Natural(mib)), f(Op::Natural(1024)))),
            1,
        ) + " GiB free"@
    } else {
        mount.mount + " has "@ + decimal(mib as nat) + " MiB free"@
    }
}

pub fn describe<F: Fn(Op) -> Number, S: Fn(Number, u32) -> String>(
    mount: &MountFree,
    compute: &F,
    show: &S,
) -> (r: String)
    requires
        is_arithmetic(*compute),
        is_writer(*show),
    ensures
        r@ == description(arithmetic(*compute), written(*show), mount@),
{
    let mib: u64 = mount.free_bytes / MIB;
    let head = glue2(mount.mount.as_str(), " has ");
    if mib >= 1024 {
        let size = apply(compute, Op::Natural(mib));
        let unit = apply(compute, Op::Natural(1024));
        let gib = apply(compute, Op::Divide(size, unit));
        let text = write_number(show, gib, 1);
        glue3(head.as_str(), text.as_str(), " GiB free")
    } else {
        let text = string_of(decimal_of(mib).as_slice());
        glue3(head.as_str(), text.as_str(), " MiB free")
    }
}

/// The mount of a line of `df -Pk` and its free space in kibibytes. The name of a mount may hold
/// spaces.
pub open spec fn mount_in(line: Seq<char>) -> Option<(Seq<char>, nat)> {
    let fields = words(line);
    if fields.len() < 6 {
        None
    } else {
        match parsed_number(fields[3], 0xffff_ffff_ffff_ffff) {
            Some(kib) => Some((join(fields.skip(5), " "@), kib)),
            None => None,
        }
    }
}

pub open spec fn pick_mount() -> spec_fn(Seq<char>) -> Option<(Seq<char>, nat)> {
    |line: Seq<char>| mount_in(line)
}

/// The lines after the heading.
pub open spec fn body_lines(output: Seq<char>) -> Seq<Seq<char>> {
    let all = lines(output);
    if all.len() == 0 {
        all
    } else {
        all.skip(1)
    }
}

pub open spec fn has_mount(rows: Seq<(Seq<char>, nat)>, mount: Seq<char>) -> bool {
    exists|i: int| 0 <= i < rows.len() && (#[trigger] rows[i]).0 == mount
}

/// The first row of each mount.
pub open spec fn first_rows(rows: Seq<(Seq<char>, nat)>) -> Seq<(Seq<char>, nat)>
    decreases rows.len(),
{
    if rows.len() == 0 {
        Seq::empty()
    } else if has_mount(rows.drop_last(), rows.last().0) {
        first_rows(rows.drop_last())
    } else {
        first_rows(rows.drop_last()).push(rows.last())
    }
}

/// The mounts with their free space in bytes.
pub open spec fn in_bytes(rows: Seq<(Seq<char>, nat)>) -> Seq<MountView> {
    rows.map_values(
        |row: (Seq<char>, nat)| MountView { mount: row.0, free_bytes: (row.1 * 1024) as u64 },
    )
}

/// The mounts that an output of `df -Pk` names, each once.
pub open spec fn df_mounts(output: Seq<char>) -> Seq<MountView> {
    in_bytes(first_rows(picked(body_lines(output), pick_mount())))
}

/// The free space of every mount can be told in bytes.
pub open spec fn df_fits(output: Seq<char>) -> bool {
    rows_fit(body_lines(output))
}

pub open spec fn rows_fit(body: Seq<Seq<char>>) -> bool {
    forall|i: int|
        0 <= i < body.len() ==> (mount_in(#[trigger] body[i]) matches Some(row) ==> row.1 * 1024
            <= 0xffff_ffff_ffff_ffff)
}

fn read_mount(line: &[char]) -> (r: Option<(String, u64)>)
    ensures
        match r {
            Some((mount, kib)) => mount_in(line@) == Some((mount@, kib as nat)),
            None => mount_in(line@) is None,
        },
{
    let fields = words_of(line);
    assert(views(fields@).len() == fields@.len());
    if fields.len() < 6 {
        return None;
    }
    assert(views(fields@)[3] == fields@[3]@);
    match number_of(fields[3].as_slice(), u64::MAX) {
        Some(kib) => {
            let mut rest: Vec<Vec<char>> = Vec::new();
            let ghost all = views(fields@);
            let mut i: usize = 5;
            assert(views(rest@) == all.subrange(5, 5));
            while i < fields.len()
                invariant
                    5 <= i <= fields@.len(),
                    all == views(fields@),
                    views(rest@) == all.subrange(5, i as int),
                decreases fields.len() - i,
            {
                let ghost was = rest@;
                let mut field: Vec<char> = Vec::new();
                append(&mut field, fields[i].as_slice());
                assert(field@ == fields@[i as int]@);
                rest.push(field);
                assert(views(rest@) == views(was).push(all[i as int]));
                assert(all.subrange(5, i + 1) == all.subrange(5, i as int).push(all[i as int]));
                i += 1;
            }
            assert(all.subrange(5, i as int) == all.skip(5));
            let name = joined(rest.as_slice(), chars_of(" ").as_slice());
            Some((string_of(name.as_slice()), kib))
        },
        None => None,
    }
}

/// Tells whether the free space of every mount can be told in bytes.
pub fn fits_in_bytes(output: &str) -> (r: bool)
    ensures
        r == df_fits(output@),
{
    let all = lines_of(chars_of(output).as_slice());
    let ghost body = body_lines(output@);
    let mut i: usize = 1;
    while i < all.len()
        invariant
            1 <= i,
            views(all@) == lines(output@),
            body == body_lines(output@),
            i <= all@.len() || all@.len() <= 1,
            forall|j: int|
                0 <= j < i - 1 && j < body.len() ==> (mount_in(#[trigger] body[j]) matches Some(row)
                    ==> row.1 * 1024 <= 0xffff_ffff_ffff_ffff),
        decreases all.len() - i,
    {
        assert(body[i - 1] == all@[i as int]@);
        match read_mount(all[i].as_slice()) {
            Some((_, kib)) => {
                if kib > u64::MAX / 1024 {
                    assert(mount_in(body[i - 1]) is Some);
                    return false;
                }
            },
            None => {},
        }
        i += 1;
    }
    true
}

fn known(mounts: &Vec<MountFree>, mount: &str) -> (r: bool)
    ensures
        r == exists|j: int| 0 <= j < mounts@.len() && (#[trigger] mounts@[j]).mount@ == mount@,
{
    let mut i: usize = 0;
    while i < mounts.len()
        invariant
            i <= mounts@.len(),
            forall|j: int| 0 <= j < i ==> (#[trigger] mounts@[j]).mount@ != mount@,
        decreases mounts.len() - i,
    {
        if same(mounts[i].mount.as_str(), mount) {
            return true;
        }
        i += 1;
    }
    false
}

/// The first rows name the same mounts as the rows, each once.
pub proof fn mounts_are_named_once(rows: Seq<(Seq<char>, nat)>)
    ensures
        forall|mount: Seq<char>|
            #[trigger] has_mount(first_rows(rows), mount) == has_mount(rows, mount),
        forall|i: int, j: int|
            0 <= i < j < first_rows(rows).len() ==> (#[trigger] first_rows(rows)[i]).0 != (
            #[trigger] first_rows(rows)[j]).0,
    decreases rows.len(),
{
    if rows.len() > 0 {
        let head = rows.drop_last();
        let last = rows.last();
        mounts_are_named_once(head);
        let before = first_rows(head);
        let all = first_rows(rows);
        assert forall|mount: Seq<char>| #[trigger] has_mount(all, mount) == has_mount(
            rows,
            mount,
        ) by {
            assert(has_mount(before, mount) == has_mount(head, mount));
            if has_mount(all, mount) {
                let i = choose|i: int| 0 <= i < all.len() && (#[trigger] all[i]).0 == mount;
                if i < before.len() {
                    assert(before[i].0 == mount);
                    let j = choose|j: int| 0 <= j < head.len() && (#[trigger] head[j]).0 == mount;
                    assert(rows[j].0 == mount);
                } else {
                    assert(rows[rows.len() - 1].0 == mount);
                }
            }
            if has_mount(rows, mount) {
                let i = choose|i: int| 0 <= i < rows.len() && (#[trigger] rows[i]).0 == mount;
                if i < head.len() {
                    assert(head[i].0 == mount);
                } else if has_mount(head, last.0) {
                } else {
                    assert(all.last().0 == mount);
                }
                if has_mount(head, mount) {
                    let k = choose|k: int|
                        0 <= k < before.len() && (#[trigger] before[k]).0 == mount;
                    assert(all[k].0 == mount);
                }
            }
        }
        assert forall|i: int, j: int| 0 <= i < j < all.len() implies (#[trigger] all[i]).0 != (
        #[trigger] all[j]).0 by {
            if j < before.len() {
                assert(before[i].0 != before[j].0);
            } else {
                assert(all[j] == last);
                assert(before[i].0 == all[i].0);
                if all[i].0 == last.0 {
                    assert(has_mount(before, last.0));
                }
            }
        }
    }
}

/// Reads an output of POSIX `df -Pk`, one entry per mount point.
pub fn parse_df(output: &str) -> (r: Vec<MountFree>)
    requires
        df_fits(output@),
    ensures
        value_views(r@) == df_mounts(output@),
{
    let all = lines_of(chars_of(output).as_slice());
    let ghost body = body_lines(output@);
    let mut mounts: Vec<MountFree> = Vec::new();
    let mut i: usize = 1;
    proof {
        assert(body.take(0) == Seq::<Seq<char>>::empty());
        assert(value_views(mounts@) == in_bytes(first_rows(picked(body.take(0), pick_mount()))));
    }
    while i < all.len()
        invariant
            1 <= i,
            i <= all@.len() || all@.len() <= 1,
            views(all@) == lines(output@),
            body == body_lines(output@),
            rows_fit(body),
            i == 1 || i - 1 <= body.len(),
            value_views(mounts@) == in_bytes(
                first_rows(picked(body.take(i - 1), pick_mount())),
            ),
        decreases all.len() - i,
    {
        let ghost rows = picked(body.take(i - 1), pick_mount());
        let ghost shown = first_rows(rows);
        proof {
            assert(body[i - 1] == all@[i as int]@);
            assert(body.take(i as int).drop_last() == body.take(i - 1));
            assert(body.take(i as int).last() == body[i - 1]);
        }
        match read_mount(all[i].as_slice()) {
            Some((mount, kib)) => {
                assert(mount_in(body[i - 1]) == Some((mount@, kib as nat)));
                let old_mount = known(&mounts, mount.as_str());
                proof {
                    mounts_are_named_once(rows);
                    assert(has_mount(shown, mount@) == has_mount(rows, mount@));
                    assert(rows.push((mount@, kib as nat)).drop_last() == rows);
                    assert(value_views(mounts@).len() == mounts@.len());
                    assert(in_bytes(shown).len() == shown.len());
                    assert forall|j: int| 0 <= j < mounts@.len() implies #[trigger] mounts@[j].mount@
                        == shown[j].0 by {
                        assert(value_views(mounts@)[j] == mounts@[j]@);
                        assert(in_bytes(shown)[j].mount == shown[j].0);
                    }
                    if has_mount(shown, mount@) {
                        let j = choose|j: int|
                            0 <= j < shown.len() && (#[trigger] shown[j]).0 == mount@;
                        assert(mounts@[j].mount@ == mount@);
                    }
                    if old_mount {
                        let j = choose|j: int|
                            0 <= j < mounts@.len() && (#[trigger] mounts@[j]).mount@ == mount@;
                        assert(shown[j].0 == mount@);
                    }
                }
                if !old_mount {
                    let ghost was = mounts@;
                    let ghost name = mount@;
                    let free_bytes: u64 = kib * 1024;
                    mounts.push(MountFree { mount, free_bytes });
                    assert(value_views(mounts@) == value_views(was).push(
                        (MountView { mount: name, free_bytes }),
                    ));
                    assert(in_bytes(shown.push((name, kib as nat))) == in_bytes(shown).push(
                        (MountView { mount: name, free_bytes }),
                    ));
                }
            },
            None => {},
        }
        i += 1;
    }
    proof {
        if all@.len() <= 1 {
            assert(body.len() == 0) by {
                assert(views(all@).len() == all@.len());
            }
            assert(body.take(0) == body);
        } else {
            assert(views(all@).len() == all@.len());
            assert(body.take(i - 1) == body);
        }
    }
    mounts
}

/// What `df -Pk` says of a node, from its two streams: none where it cannot be told in bytes.
pub fn read_df(stdout: &[u8], stderr: &[u8]) -> (r: Option<Result<Vec<MountFree>, String>>)
    ensures
        match r {
            None => !df_fits(lossy_text(stdout@)),
            Some(Ok(mounts)) => {
                &&& df_fits(lossy_text(stdout@))
                &&& mounts@.len() > 0
                &&& value_views(mounts@) == df_mounts(lossy_text(stdout@))
            },
            Some(Err(error)) => {
                &&& df_fits(lossy_text(stdout@))
                &&& df_mounts(lossy_text(stdout@)).len() == 0
                &&& error@ == "df reported nothing: "@ + trim(lossy_text(stderr@))
            },
        },
{
    let output = text_from_lossy(stdout);
    if !fits_in_bytes(output.as_str()) {
        return None;
    }
    let mounts = parse_df(output.as_str());
    assert(value_views(mounts@).len() == mounts@.len());
    if mounts.len() == 0 {
        let complaint = text_from_lossy(stderr);
        let short = string_of(trimmed(chars_of(complaint.as_str()).as_slice()).as_slice());
        return Some(Err(glue2("df reported nothing: ", short.as_str())));
    }
    Some(Ok(mounts))
}

pub open spec fn is_measured() -> spec_fn(NodeConfig) -> bool {
    |node: NodeConfig| !node.rule_side
}

/// The nodes whose disks are measured: all but those of the rules, and none without paths.
pub fn measured<'a>(config: &'a LoadedConfig) -> (r: Vec<&'a NodeConfig>)
    ensures
        derefs(r@) == (if config.config.disk.paths@.len() == 0 {
            Seq::empty()
        } else {
            config.config.nodes@.filter(is_measured())
        }),
{
    if config.config.disk.paths.len() == 0 {
        let none: Vec<&'a NodeConfig> = Vec::new();
        assert(derefs(none@) == Seq::<NodeConfig>::empty());
        return none;
    }
    let mut flags: Vec<bool> = Vec::new();
    let mut i: usize = 0;
    while i < config.config.nodes.len()
        invariant
            i <= config.config.nodes@.len(),
            flags@.len() == i,
            forall|j: int|
                0 <= j < i ==> #[trigger] flags@[j] == is_measured()(config.config.nodes@[j]),
        decreases config.config.nodes.len() - i,
    {
        flags.push(!config.config.nodes[i].rule_side);
        i += 1;
    }
    keep(config.config.nodes.as_slice(), &flags, Ghost(is_measured()))
}

/// The arguments of `ssh` that measure a node.
pub open spec fn df_arguments_of(config: LoadedConfig, node: NodeConfig) -> Seq<Seq<char>> {
    config.ssh_arguments() + seq![
        login(config, node),
        "--"@,
        "df -Pk "@ + command_line(texts(config.config.disk.paths@)),
    ]
}

pub fn df_arguments(config: &LoadedConfig, node: &NodeConfig) -> (r: Vec<String>)
    ensures
        texts(r@) == df_arguments_of(*config, *node),
{
    let mut out = config.ssh_options();
    let ghost start = texts(out@);
    let target = login_text(config, node);
    let paths = quote_command(&config.config.disk.paths);
    let command = glue2("df -Pk ", paths.as_str());
    push_text(&mut out, target.as_str());
    push_text(&mut out, "--");
    push_text(&mut out, command.as_str());
    assert(start.push(target@).push("--"@).push(command@) == start + seq![
        target@,
        "--"@,
        command@,
    ]);
    out
}

/// What the disks of the nodes come to.
#[derive(Debug)]
pub struct DiskCheck {
    pub warnings: Vec<String>,
    /// Why the benchmark is not started.
    pub error: Option<String>,
}

/// What is said of one node, where its level is this.
pub open spec fn disk_line(
    f: spec_fn(Op) -> Number,
    g: spec_fn(Number, u32) -> Seq<char>,
    disk: DiskConfig,
    wanted: DiskLevel,
    head: Seq<char>,
    node: NodeDisk,
) -> Option<Seq<char>> {
    match node.mounts {
        Ok(mounts) => if mounts@.len() == 0 {
            None
        } else {
            let mount = tightest_of(mounts@);
            if level_of(
                mount.free_bytes as nat,
                disk.node_min_free_mb as nat,
                disk.node_warn_free_mb as nat,
            ) == wanted {
                Some(head + node.node@ + ": "@ + description(f, g, mount@))
            } else {
                None
            }
        },
        Err(_) => None,
    }
}

/// The emptiest of some mounts.
pub open spec fn tightest_of(mounts: Seq<MountFree>) -> MountFree {
    mounts[choose|i: int| emptiest(mounts, i)]
}

pub open spec fn pick_disk_line(
    f: spec_fn(Op) -> Number,
    g: spec_fn(Number, u32) -> Seq<char>,
    disk: DiskConfig,
    wanted: DiskLevel,
    head: Seq<char>,
) -> spec_fn(NodeDisk) -> Option<Seq<char>> {
    |node: NodeDisk| disk_line(f, g, disk, wanted, head, node)
}

/// There is one emptiest mount.
pub proof fn emptiest_is_one(mounts: Seq<MountFree>, i: int)
    requires
        emptiest(mounts, i),
    ensures
        tightest_of(mounts) == mounts[i],
{
    let k = choose|k: int| emptiest(mounts, k);
    if k < i {
        assert(mounts[i].free_bytes < mounts[k].free_bytes);
    }
    if i < k {
        assert(mounts[k].free_bytes < mounts[i].free_bytes);
    }
}

/// Warns of nodes that are low on disk, and refuses to benchmark where one is below the minimum.
/// Nodes that could not be measured are left to the collectors.
pub fn check_disks<F: Fn(Op) -> Number, S: Fn(Number, u32) -> String>(
    nodes: &Vec<NodeDisk>,
    disk: &DiskConfig,
    compute: &F,
    show: &S,
) -> (r: DiskCheck)
    requires
        is_arithmetic(*compute),
        is_writer(*show),
    ensures
        ({
            let f = arithmetic(*compute);
            let g = written(*show);
            let too_low = picked(nodes@, pick_disk_line(f, g, *disk, DiskLevel::TooLow, ""@));
            &&& texts(r.warnings@) == picked(
                nodes@,
                pick_disk_line(f, g, *disk, DiskLevel::Low, "! disk "@),
            )
            &&& crate::report::text_option(r.error) == if too_low.len() == 0 {
                None
            } else {
                Some(
                    "nodes are below the "@ + decimal(disk.node_min_free_mb as nat)
                        + " MiB free disk minimum ("@ + join(too_low, ", "@)
                        + "); free space before benchmarking, or lower [disk] node_min_free_mb"@,
                )
            }
        }),
{
    let ghost f = arithmetic(*compute);
    let ghost g = written(*show);
    let ghost low = pick_disk_line(f, g, *disk, DiskLevel::Low, "! disk "@);
    let ghost bad = pick_disk_line(f, g, *disk, DiskLevel::TooLow, ""@);
    let mut warnings: Vec<String> = Vec::new();
    let mut too_low: Vec<Vec<char>> = Vec::new();
    let mut i: usize = 0;
    proof {
        assert(nodes@.take(0) == Seq::<NodeDisk>::empty());
        assert(texts(warnings@) == picked(nodes@.take(0), low));
        assert(views(too_low@) == picked(nodes@.take(0), bad));
    }
    while i < nodes.len()
        invariant
            i <= nodes@.len(),
            is_arithmetic(*compute),
            is_writer(*show),
            f == arithmetic(*compute),
            g == written(*show),
            low == pick_disk_line(f, g, *disk, DiskLevel::Low, "! disk "@),
            bad == pick_disk_line(f, g, *disk, DiskLevel::TooLow, ""@),
            texts(warnings@) == picked(nodes@.take(i as int), low),
            views(too_low@) == picked(nodes@.take(i as int), bad),
        decreases nodes.len() - i,
    {
        let node = &nodes[i];
        proof {
            assert(nodes@.take(i + 1).drop_last() == nodes@.take(i as int));
            assert(nodes@.take(i + 1).last() == *node);
        }
        match node.tightest(disk) {
            Some((mount, found)) => {
                proof {
                    let k = choose|k: int|
                        emptiest(node.mounts->Ok_0@, k) && *mount
                            == #[trigger] node.mounts->Ok_0@[k];
                    emptiest_is_one(node.mounts->Ok_0@, k);
                }
                match found {
                    DiskLevel::Low => {
                        let text = describe(mount, compute, show);
                        let head = glue3("! disk ", node.node.as_str(), ": ");
                        let line = glue2(head.as_str(), text.as_str());
                        push_text(&mut warnings, line.as_str());
                        assert(bad(*node) is None);
                    },
                    DiskLevel::TooLow => {
                        let text = describe(mount, compute, show);
                        let head = glue3("", node.node.as_str(), ": ");
                        let line = glue2(head.as_str(), text.as_str());
                        let ghost was = too_low@;
                        let chars = chars_of(line.as_str());
                        too_low.push(chars);
                        assert(views(too_low@) == views(was).push(line@));
                        assert(low(*node) is None);
                    },
                    DiskLevel::Enough => {
                        assert(low(*node) is None);
                        assert(bad(*node) is None);
                    },
                }
            },
            None => {
                assert(low(*node) is None);
                assert(bad(*node) is None);
            },
        }
        i += 1;
    }
    assert(nodes@.take(i as int) == nodes@);
    assert(views(too_low@).len() == too_low@.len());
    let error = if too_low.len() == 0 {
        None
    } else {
        let limit = string_of(decimal_of(disk.node_min_free_mb).as_slice());
        let list = string_of(joined(too_low.as_slice(), chars_of(", ").as_slice()).as_slice());
        Some(
            glue5(
                "nodes are below the ",
                limit.as_str(),
                " MiB free disk minimum (",
                list.as_str(),
                "); free space before benchmarking, or lower [disk] node_min_free_mb",
            ),
        )
    };
    DiskCheck { warnings, error }
}

} // verus!
