//! The disk space that the buffers of sinks may take.
use vstd::prelude::*;

use crate::config::sink::{BufferType, SinkOuter};
use crate::config::validation::{finds, outcome};
use crate::config::Config;
use crate::id::{ComponentKey, OutputId};
use crate::text::{
    decimal, gather, gather_empty, gathered, join, joined, number, only_if, push_text, same_text,
    same_texts, texts,
};

verus! {

/// What a buffer on disk may take, and where.
#[derive(Debug)]
pub struct DiskUsage {
    /// The sink that the buffer belongs to.
    pub id: ComponentKey,
    /// The directory of the buffer.
    pub data_dir: String,
    /// The most bytes that the buffer may hold.
    pub max_size: u64,
}

/// A [`DiskUsage`], with texts as sequences of characters.
pub ghost struct DiskUsageModel {
    pub id: Seq<char>,
    pub data_dir: Seq<char>,
    pub max_size: u64,
}

impl View for DiskUsage {
    type V = DiskUsageModel;

    open spec fn view(&self) -> DiskUsageModel {
        DiskUsageModel { id: self.id@, data_dir: self.data_dir@, max_size: self.max_size }
    }
}

/// What a list of usages stands for.
pub open spec fn usage_models(list: Seq<DiskUsage>) -> Seq<DiskUsageModel> {
    Seq::new(list.len(), |i: int| list[i]@)
}

/// The usage of one stage of a buffer. Only a stage on disk has one, and only
/// where there is a directory for data.
pub open spec fn stage_usage(
    data_dir: Option<String>,
    id: Seq<char>,
    stage: BufferType,
) -> Seq<DiskUsageModel> {
    match (data_dir, stage) {
        (Some(dir), BufferType::DiskV2 { max_size, .. }) => seq![
            DiskUsageModel { id, data_dir: dir@ + "/buffer/v2/"@ + id, max_size },
        ],
        _ => Seq::empty(),
    }
}

/// The usages of all stages of a sink's buffer.
pub open spec fn sink_usages(
    data_dir: Option<String>,
    id: Seq<char>,
    stages: Seq<BufferType>,
) -> Seq<DiskUsageModel> {
    gather(stages.len(), |i: int| stage_usage(data_dir, id, stages[i]))
}

/// The usages of all sinks' buffers.
pub open spec fn all_usages(config: Config) -> Seq<DiskUsageModel> {
    gather(
        config.sinks@.len(),
        |i: int|
            sink_usages(config.global.data_dir, config.sinks@[i].0, config.sinks@[i].1.buffer.stages@),
    )
}

/// Adds the usages of one sink's buffer.
fn add_usages(
    usages: &mut Vec<DiskUsage>,
    data_dir: &Option<String>,
    id: &ComponentKey,
    stages: &Vec<BufferType>,
)
    ensures
        usage_models(final(usages)@) == usage_models(old(usages)@) + sink_usages(
            *data_dir,
            id@,
            stages@,
        ),
{
    let ghost before = usage_models(usages@);
    let ghost f = |i: int| stage_usage(*data_dir, id@, stages@[i]);
    assert(usage_models(usages@) =~= before + gather(0, f));
    let mut i: usize = 0;
    while i < stages.len()
        invariant
            i <= stages.len(),
            f == (|i: int| stage_usage(*data_dir, id@, stages@[i])),
            usage_models(usages@) == before + gather(i as nat, f),
        decreases stages.len() - i,
    {
        let ghost held = usage_models(usages@);
        match (data_dir, stages[i]) {
            (Some(dir), BufferType::DiskV2 { max_size, .. }) => {
                let mut path = dir.clone();
                path.append("/buffer/v2/");
                path.append(id.id());
                usages.push(DiskUsage { id: id.clone(), data_dir: path, max_size });
            },
            _ => {},
        }
        assert(usage_models(usages@) =~= held + f(i as int));
        assert(usage_models(usages@) =~= before + gather((i + 1) as nat, f));
        i = i + 1;
    }
}

/// Collects what the buffers of all sinks may take on disk.
pub fn configured_disk_buffers(config: &Config) -> (usages: Vec<DiskUsage>)
    ensures
        usage_models(usages@) == all_usages(*config),
{
    let ghost sinks = config.sinks@;
    let ghost f = |i: int|
        sink_usages(config.global.data_dir, sinks[i].0, sinks[i].1.buffer.stages@);
    let mut usages: Vec<DiskUsage> = Vec::new();
    assert(usage_models(usages@) =~= gather(0, f));
    let len: usize = config.sinks.len();
    let mut i: usize = 0;
    while i < len
        invariant
            i <= len,
            len == sinks.len(),
            sinks == config.sinks@,
            f == (|i: int|
                sink_usages(config.global.data_dir, sinks[i].0, sinks[i].1.buffer.stages@)),
            usage_models(usages@) == gather(i as nat, f),
        decreases len - i,
    {
        let id = ComponentKey::new(config.sinks.key_at(i));
        let stages = config.sinks.value_at(i).buffer.stages();
        add_usages(&mut usages, &config.global.data_dir, &id, stages);
        assert(f(i as int) == sink_usages(config.global.data_dir, id@, stages@));
        i = i + 1;
    }
    usages
}

/// A place where a file system is mounted.
#[derive(Debug)]
pub struct Mountpoint {
    /// The names that make up its path.
    pub components: Vec<String>,
    /// Its path in messages.
    pub text: String,
    /// How many bytes the file system holds in all.
    pub capacity: u64,
}

/// A buffer on disk and the path of its directory, with links resolved.
#[derive(Debug)]
pub struct PlacedBuffer {
    /// What the buffer may take.
    pub usage: DiskUsage,
    /// The names that make up the path.
    pub components: Vec<String>,
}

/// Whether a file system is mounted at a directory on the given path.
pub open spec fn leads_to(mountpoint: Mountpoint, path: Seq<Seq<char>>) -> bool {
    texts(mountpoint.components@).is_prefix_of(path)
}

/// Whether a mountpoint is the one that a path lies on: the deepest on the
/// path, and of several at one directory the last.
pub open spec fn lies_on(mountpoints: Seq<Mountpoint>, i: int, path: Seq<Seq<char>>) -> bool {
    &&& 0 <= i < mountpoints.len()
    &&& leads_to(mountpoints[i], path)
    &&& forall|j: int|
        0 <= j < mountpoints.len() && leads_to(#[trigger] mountpoints[j], path)
            ==> mountpoints[j].components@.len() <= mountpoints[i].components@.len()
    &&& forall|j: int|
        i < j < mountpoints.len() && leads_to(#[trigger] mountpoints[j], path)
            ==> mountpoints[j].components@.len() < mountpoints[i].components@.len()
}

/// Whether two mountpoints are one directory.
pub open spec fn same_directory(a: Mountpoint, b: Mountpoint) -> bool {
    texts(a.components@) == texts(b.components@)
}

/// The first mountpoint, from a given one on, at the directory of another.
pub open spec fn first_from(mountpoints: Seq<Mountpoint>, i: int, from: int) -> int
    decreases i - from,
{
    if from >= i || same_directory(mountpoints[from], mountpoints[i]) {
        from
    } else {
        first_from(mountpoints, i, from + 1)
    }
}

/// What messages call a mountpoint: what the first at its directory is called.
pub open spec fn called(mountpoints: Seq<Mountpoint>, i: int) -> Seq<char> {
    mountpoints[first_from(mountpoints, i, 0)].text@
}

/// The buffers that lie on a mountpoint.
pub open spec fn buffers_on(
    buffers: Seq<PlacedBuffer>,
    mountpoints: Seq<Mountpoint>,
    i: int,
) -> Seq<DiskUsageModel> {
    gather(
        buffers.len(),
        |j: int|
            if lies_on(mountpoints, i, texts(buffers[j].components@)) {
                seq![buffers[j].usage@]
            } else {
                Seq::empty()
            },
    )
}

/// The most bytes that buffers may hold together.
pub open spec fn total_size(usages: Seq<DiskUsageModel>) -> nat
    decreases usages.len(),
{
    if usages.len() == 0 {
        0
    } else {
        total_size(usages.drop_last()) + usages.last().max_size as nat
    }
}

/// The sinks that buffers belong to.
pub open spec fn owners(usages: Seq<DiskUsageModel>) -> Seq<Seq<char>> {
    usages.map_values(|usage: DiskUsageModel| usage.id)
}

/// The message on a mountpoint whose buffers may hold more than there is room.
pub open spec fn capacity_error(
    buffers: Seq<PlacedBuffer>,
    mountpoints: Seq<Mountpoint>,
    i: int,
) -> Seq<Seq<char>> {
    let usages = buffers_on(buffers, mountpoints, i);
    only_if(
        total_size(usages) > mountpoints[i].capacity,
        "Mountpoint '"@ + called(mountpoints, i) + "' has total capacity of "@ + decimal(
            mountpoints[i].capacity as nat,
        )
            + " bytes, but configured buffers using mountpoint have total maximum size of "@
            + decimal(total_size(usages))
            + " bytes. Reduce the `max_size` of the buffers to fit within the total capacity of the mountpoint. (components associated with mountpoint: "@
            + joined(owners(usages), ", "@) + ")"@,
    )
}

/// The messages of [`check_buffer_preconditions`].
pub open spec fn capacity_errors(
    buffers: Seq<PlacedBuffer>,
    mountpoints: Seq<Mountpoint>,
) -> Seq<Seq<char>> {
    gather(mountpoints.len(), |i: int| capacity_error(buffers, mountpoints, i))
}

/// Decides whether a file system is mounted at a directory on the given path.
fn is_on_path(mountpoint: &Mountpoint, path: &Vec<String>) -> (found: bool)
    ensures
        found == leads_to(*mountpoint, texts(path@)),
{
    let names = &mountpoint.components;
    if names.len() > path.len() {
        return false;
    }
    let mut i: usize = 0;
    while i < names.len()
        invariant
            i <= names.len() <= path.len(),
            names == mountpoint.components,
            forall|j: int| 0 <= j < i ==> (#[trigger] names@[j])@ == path@[j]@,
        decreases names.len() - i,
    {
        if !same_text(names[i].as_str(), path[i].as_str()) {
            assert(texts(names@)[i as int] != texts(path@)[i as int]);
            assert(texts(path@).subrange(0, names@.len() as int)[i as int] == texts(path@)[i as int]);
            return false;
        }
        i = i + 1;
    }
    assert(texts(names@) =~= texts(path@).subrange(0, names@.len() as int));
    true
}

/// Finds the mountpoint that a path lies on.
pub fn find_mountpoint(mountpoints: &Vec<Mountpoint>, path: &Vec<String>) -> (found: Option<usize>)
    ensures
        match found {
            Some(i) => lies_on(mountpoints@, i as int, texts(path@)),
            None => forall|i: int|
                0 <= i < mountpoints@.len() ==> !leads_to(#[trigger] mountpoints@[i], texts(path@)),
        },
{
    let mut found: Option<usize> = None;
    let mut i: usize = 0;
    while i < mountpoints.len()
        invariant
            i <= mountpoints.len(),
            match found {
                Some(k) => lies_on(mountpoints@.take(i as int), k as int, texts(path@)),
                None => forall|j: int|
                    0 <= j < i ==> !leads_to(#[trigger] mountpoints@[j], texts(path@)),
            },
        decreases mountpoints.len() - i,
    {
        let ghost before = mountpoints@.take(i as int);
        let ghost after = mountpoints@.take(i + 1);
        assert forall|j: int| 0 <= j < i implies after[j] == before[j] by {}
        assert(after[i as int] == mountpoints@[i as int]);
        if is_on_path(&mountpoints[i], path) {
            let deeper = match found {
                Some(k) => mountpoints[k].components.len() <= mountpoints[i].components.len(),
                None => true,
            };
            proof {
                if found is None {
                    assert forall|j: int| 0 <= j < i implies !leads_to(
                        #[trigger] after[j],
                        texts(path@),
                    ) by {
                        assert(after[j] == mountpoints@[j]);
                    }
                }
            }
            if deeper {
                found = Some(i);
            }
        }
        i = i + 1;
    }
    assert(mountpoints@.take(i as int) =~= mountpoints@);
    found
}

/// A path lies on one mountpoint at most.
pub proof fn lies_on_one(mountpoints: Seq<Mountpoint>, i: int, j: int, path: Seq<Seq<char>>)
    requires
        lies_on(mountpoints, i, path),
        lies_on(mountpoints, j, path),
    ensures
        i == j,
{
    assert(leads_to(mountpoints[i], path));
    assert(leads_to(mountpoints[j], path));
}

/// Finds the first mountpoint at the directory of another.
fn find_first(mountpoints: &Vec<Mountpoint>, i: usize) -> (first: usize)
    requires
        i < mountpoints@.len(),
    ensures
        first == first_from(mountpoints@, i as int, 0),
        first <= i,
{
    let mut j: usize = 0;
    while j < i && !same_texts(&mountpoints[j].components, &mountpoints[i].components)
        invariant
            j <= i < mountpoints@.len(),
            first_from(mountpoints@, i as int, j as int) == first_from(mountpoints@, i as int, 0),
        decreases i - j,
    {
        j = j + 1;
    }
    j
}

/// The total and the owners of the buffers that lie on a mountpoint.
fn sum_up(buffers: &Vec<PlacedBuffer>, mountpoints: &Vec<Mountpoint>, place: usize) -> (sum: (
    u128,
    Vec<String>,
))
    requires
        place < mountpoints@.len(),
    ensures
        sum.0 == total_size(buffers_on(buffers@, mountpoints@, place as int)),
        texts(sum.1@) == owners(buffers_on(buffers@, mountpoints@, place as int)),
{
    let ghost all = buffers@;
    let ghost mounts = mountpoints@;
    let ghost f = |j: int|
        if lies_on(mounts, place as int, texts(all[j].components@)) {
            seq![all[j].usage@]
        } else {
            Seq::empty()
        };
    let mut total: u128 = 0;
    let mut ids: Vec<String> = Vec::new();
    assert(texts(ids@) =~= owners(gather(0, f)));
    let mut i: usize = 0;
    while i < buffers.len()
        invariant
            i <= buffers.len(),
            place < mountpoints@.len(),
            all == buffers@,
            mounts == mountpoints@,
            f == (|j: int|
                if lies_on(mounts, place as int, texts(all[j].components@)) {
                    seq![all[j].usage@]
                } else {
                    Seq::empty()
                }),
            total <= i * u64::MAX,
            total == total_size(gather(i as nat, f)),
            texts(ids@) == owners(gather(i as nat, f)),
        decreases buffers.len() - i,
    {
        let ghost before = gather(i as nat, f);
        let ghost after = gather((i + 1) as nat, f);
        let here = match find_mountpoint(mountpoints, &buffers[i].components) {
            Some(found) => {
                proof {
                    if lies_on(mounts, place as int, texts(all[i as int].components@)) {
                        lies_on_one(
                            mounts,
                            place as int,
                            found as int,
                            texts(all[i as int].components@),
                        );
                    }
                }
                found == place
            },
            None => false,
        };
        assert((i + 1) * u64::MAX == i * u64::MAX + u64::MAX) by (nonlinear_arith);
        assert(i * u64::MAX <= usize::MAX * u64::MAX) by (nonlinear_arith)
            requires
                i <= usize::MAX,
        ;
        assert(usize::MAX <= u64::MAX);
        assert(usize::MAX * u64::MAX <= 0xffff_ffff_ffff_ffff * 0xffff_ffff_ffff_ffff)
            by (nonlinear_arith)
            requires
                usize::MAX <= u64::MAX,
        ;
        if here {
            total = total + buffers[i].usage.max_size as u128;
            push_text(&mut ids, buffers[i].usage.id.id().to_owned());
            proof {
                assert(after =~= before.push(all[i as int].usage@));
                assert(after.drop_last() =~= before);
                assert(owners(after) =~= owners(before).push(all[i as int].usage@.id));
            }
        } else {
            assert(after =~= before);
        }
        i = i + 1;
    }
    (total, ids)
}

/// Checks that the file systems have room for all that the buffers on them may
/// hold. A buffer that lies on no known mountpoint is passed over.
fn check_capacity(buffers: &Vec<PlacedBuffer>, mountpoints: &Vec<Mountpoint>) -> (result: Result<
    (),
    Vec<String>,
>)
    ensures
        finds(result, capacity_errors(buffers@, mountpoints@)),
{
    let ghost f = |i: int| capacity_error(buffers@, mountpoints@, i);
    let mut errors: Vec<String> = Vec::new();
    assert(texts(errors@) =~= gather(0, f));
    let mut i: usize = 0;
    while i < mountpoints.len()
        invariant
            i <= mountpoints.len(),
            f == (|i: int| capacity_error(buffers@, mountpoints@, i)),
            texts(errors@) == gather(i as nat, f),
        decreases mountpoints.len() - i,
    {
        let ghost before = texts(errors@);
        let (total, ids) = sum_up(buffers, mountpoints, i);
        if total > mountpoints[i].capacity as u128 {
            let mut message = "Mountpoint '".to_owned();
            message.append(mountpoints[find_first(mountpoints, i)].text.as_str());
            message.append("' has total capacity of ");
            message.append(number(mountpoints[i].capacity as u128).as_str());
            message.append(
                " bytes, but configured buffers using mountpoint have total maximum size of ",
            );
            message.append(number(total).as_str());
            message.append(
                " bytes. Reduce the `max_size` of the buffers to fit within the total capacity of the mountpoint. (components associated with mountpoint: ",
            );
            message.append(join(&ids, ", ").as_str());
            message.append(")");
            push_text(&mut errors, message);
        }
        assert(texts(errors@) =~= before + f(i as int));
        i = i + 1;
    }
    outcome(errors)
}

/// Checks that there is room on disk for the buffers of all sinks.
///
/// Nothing can be said where the mountpoints could not be queried.
pub fn check_buffer_preconditions(
    buffers: &Vec<PlacedBuffer>,
    mountpoints: &Option<Vec<Mountpoint>>,
) -> (result: Result<(), Vec<String>>)
    ensures
        match mountpoints {
            Some(known) => finds(result, capacity_errors(buffers@, known@)),
            None => result is Ok,
        },
{
    match mountpoints {
        Some(known) => check_capacity(buffers, known),
        None => Ok(()),
    }
}

/// Whether a path leads through a directory: whether the names of the directory are
/// the first names of the path.
pub open spec fn path_leads_through(path: Seq<String>, directory: Seq<String>) -> bool {
    &&& directory.len() <= path.len()
    &&& forall|k: int| 0 <= k < directory.len() ==> (#[trigger] directory[k])@ == path[k]@
}

/// Whether a mountpoint is the one that holds a path: the path leads through it,
/// and neither through a longer one nor through a later one of the same length.
pub open spec fn holds_path(mountpoints: Seq<Mountpoint>, i: int, path: Seq<String>) -> bool {
    &&& 0 <= i < mountpoints.len()
    &&& path_leads_through(path, mountpoints[i].components@)
    &&& forall|j: int|
        0 <= j < mountpoints.len() && path_leads_through(
            path,
            (#[trigger] mountpoints[j]).components@,
        ) ==> mountpoints[j].components@.len() < mountpoints[i].components@.len() || (
        mountpoints[j].components@.len() == mountpoints[i].components@.len() && j <= i)
}

/// A file system is mounted on a path just where the path leads through its
/// directory, name by name.
pub proof fn leads_through(mountpoint: Mountpoint, path: Seq<String>)
    ensures
        leads_to(mountpoint, texts(path)) <==> path_leads_through(path, mountpoint.components@),
{
    let names = texts(mountpoint.components@);
    let whole = texts(path);
    if names.is_prefix_of(whole) {
        assert forall|k: int| 0 <= k < names.len() implies (
        #[trigger] mountpoint.components@[k])@ == path[k]@ by {
            assert(names[k] == whole.subrange(0, names.len() as int)[k]);
        }
    }
    if path_leads_through(path, mountpoint.components@) {
        assert forall|k: int| 0 <= k < names.len() implies names[k] == whole[k] by {
            assert(mountpoint.components@[k]@ == path[k]@);
        }
        assert(names =~= whole.subrange(0, names.len() as int));
    }
}

/// A path lies on the mountpoint that is the deepest directory which it leads
/// through, of several the last.
pub proof fn lies_where_held(mountpoints: Seq<Mountpoint>, i: int, path: Seq<String>)
    ensures
        lies_on(mountpoints, i, texts(path)) <==> holds_path(mountpoints, i, path),
{
    assert forall|j: int| 0 <= j < mountpoints.len() implies (leads_to(
        #[trigger] mountpoints[j],
        texts(path),
    ) <==> path_leads_through(path, mountpoints[j].components@)) by {
        leads_through(mountpoints[j], path);
    }
}

/// How many bytes the first buffers may hold together on a mountpoint.
pub open spec fn held_on(
    buffers: Seq<PlacedBuffer>,
    mountpoints: Seq<Mountpoint>,
    i: int,
    n: nat,
) -> nat
    decreases n,
{
    if n == 0 {
        0
    } else {
        held_on(buffers, mountpoints, i, (n - 1) as nat) + if holds_path(
            mountpoints,
            i,
            buffers[n - 1].components@,
        ) {
            buffers[n - 1].usage.max_size as nat
        } else {
            0
        }
    }
}

/// The total of the buffers on a mountpoint is what they may hold together.
proof fn totals_add_up(buffers: Seq<PlacedBuffer>, mountpoints: Seq<Mountpoint>, i: int, n: nat)
    requires
        n <= buffers.len(),
    ensures
        ({
            let f = |j: int|
                if lies_on(mountpoints, i, texts(buffers[j].components@)) {
                    seq![buffers[j].usage@]
                } else {
                    Seq::empty()
                };
            total_size(gather(n, f)) == held_on(buffers, mountpoints, i, n)
        }),
    decreases n,
{
    let f = |j: int|
        if lies_on(mountpoints, i, texts(buffers[j].components@)) {
            seq![buffers[j].usage@]
        } else {
            Seq::empty()
        };
    if n > 0 {
        totals_add_up(buffers, mountpoints, i, (n - 1) as nat);
        lies_where_held(mountpoints, i, buffers[n - 1].components@);
        let before = gather((n - 1) as nat, f);
        let all = gather(n, f);
        if lies_on(mountpoints, i, texts(buffers[n - 1].components@)) {
            assert(all =~= before.push(buffers[n - 1].usage@));
            assert(all.drop_last() =~= before);
        } else {
            assert(all =~= before);
        }
    }
}

/// There is room on disk just where, on each known mountpoint, the buffers that lie
/// on it may together hold no more bytes than it has. Where no mountpoints are
/// known, nothing is refused.
pub proof fn buffers_must_fit_their_mountpoints(
    buffers: &Vec<PlacedBuffer>,
    mountpoints: &Option<Vec<Mountpoint>>,
    result: Result<(), Vec<String>>,
)
    requires
        call_ensures(check_buffer_preconditions, (buffers, mountpoints), result),
    ensures
        *mountpoints is None ==> result is Ok,
        *mountpoints matches Some(known) ==> (result is Ok <==> forall|i: int|
            0 <= i < known@.len() ==> held_on(buffers@, known@, i, buffers@.len()) <= (
            #[trigger] known@[i]).capacity),
{
    if let Some(known) = *mountpoints {
        room_is_needed(buffers@, known@);
    }
}

/// There is no message on room just where all buffers fit.
pub proof fn room_is_needed(buffers: Seq<PlacedBuffer>, known: Seq<Mountpoint>)
    ensures
        capacity_errors(buffers, known).len() == 0 <==> forall|i: int|
            0 <= i < known.len() ==> held_on(buffers, known, i, buffers.len()) <= (
            #[trigger] known[i]).capacity,
{
    let f = |i: int| capacity_error(buffers, known, i);
    gather_empty(known.len(), f);
    assert(capacity_errors(buffers, known) == gather(known.len(), f));
    assert forall|i: int| 0 <= i < known.len() implies ((#[trigger] f(i)).len() == 0 <==> held_on(
        buffers,
        known,
        i,
        buffers.len(),
    ) <= known[i].capacity) by {
        totals_add_up(buffers, known, i, buffers.len());
    }
    if capacity_errors(buffers, known).len() == 0 {
        assert forall|i: int| 0 <= i < known.len() implies held_on(buffers, known, i, buffers.len())
            <= (#[trigger] known[i]).capacity by {
            assert(f(i).len() == 0);
        }
    }
}

/// The buffers on disk are, for each stage on disk of each sink's buffer, where
/// there is a directory for data, one of the size of the stage in a directory of
/// the sink's own.
pub proof fn disk_stages_have_buffers(config: &Config, usages: Vec<DiskUsage>, usage: DiskUsageModel)
    requires
        call_ensures(configured_disk_buffers, (config,), usages),
    ensures
        (exists|u: int|
            0 <= u < usages@.len() && (#[trigger] usages@[u]).id@ == usage.id
                && usages@[u].data_dir@ == usage.data_dir && usages@[u].max_size == usage.max_size)
            <==> config.global.data_dir is Some && exists|i: int, k: int| #[trigger]
            stage_takes(config.sinks@, config.global.data_dir->0@, i, k, usage),
{
    let all = usage_models(usages@);
    let f = |i: int|
        sink_usages(config.global.data_dir, config.sinks@[i].0, config.sinks@[i].1.buffer.stages@);
    assert(all == gather(config.sinks@.len(), f));
    gathered(config.sinks@.len(), f, usage);
    assert((exists|u: int|
        0 <= u < usages@.len() && (#[trigger] usages@[u]).id@ == usage.id && usages@[u].data_dir@
            == usage.data_dir && usages@[u].max_size == usage.max_size) <==> all.contains(usage)) by {
        if all.contains(usage) {
            let u = choose|u: int| 0 <= u < all.len() && all[u] == usage;
            assert(usages@[u]@ == usage);
        }
        if exists|u: int|
            0 <= u < usages@.len() && (#[trigger] usages@[u]).id@ == usage.id
                && usages@[u].data_dir@ == usage.data_dir && usages@[u].max_size
                == usage.max_size {
            let u = choose|u: int|
                0 <= u < usages@.len() && (#[trigger] usages@[u]).id@ == usage.id
                    && usages@[u].data_dir@ == usage.data_dir && usages@[u].max_size
                    == usage.max_size;
            assert(all[u] == usage);
        }
    }
    assert forall|i: int| 0 <= i < config.sinks@.len() implies ((#[trigger] f(i)).contains(usage)
        <==> config.global.data_dir is Some && exists|k: int| #[trigger]
        stage_takes(config.sinks@, config.global.data_dir->0@, i, k, usage)) by {
        let stages = config.sinks@[i].1.buffer.stages@;
        let g = |k: int| stage_usage(config.global.data_dir, config.sinks@[i].0, stages[k]);
        assert(f(i) == gather(stages.len(), g));
        gathered(stages.len(), g, usage);
        assert forall|k: int| 0 <= k < stages.len() implies ((#[trigger] g(k)).contains(usage)
            <==> config.global.data_dir is Some && stage_takes(
            config.sinks@,
            config.global.data_dir->0@,
            i,
            k,
            usage,
        )) by {
            if g(k).len() > 0 {
                assert(g(k).len() == 1);
                if g(k).contains(usage) {
                    assert(g(k)[0] == usage);
                }
                if g(k)[0] == usage {
                    assert(g(k).contains(usage));
                }
            }
        }
        if f(i).contains(usage) {
            let k = choose|k: int| 0 <= k < stages.len() && (#[trigger] g(k)).contains(usage);
            assert(stage_takes(config.sinks@, config.global.data_dir->0@, i, k, usage));
        }
        if config.global.data_dir is Some && exists|k: int| #[trigger]
            stage_takes(config.sinks@, config.global.data_dir->0@, i, k, usage) {
            let k = choose|k: int| #[trigger]
                stage_takes(config.sinks@, config.global.data_dir->0@, i, k, usage);
            assert(g(k).contains(usage));
        }
    }
    if all.contains(usage) {
        let i = choose|i: int| 0 <= i < config.sinks@.len() && (#[trigger] f(i)).contains(usage);
        let k = choose|k: int| #[trigger]
            stage_takes(config.sinks@, config.global.data_dir->0@, i, k, usage);
        assert(stage_takes(config.sinks@, config.global.data_dir->0@, i, k, usage));
    }
    if config.global.data_dir is Some && exists|i: int, k: int| #[trigger]
        stage_takes(config.sinks@, config.global.data_dir->0@, i, k, usage) {
        let (i, k) = choose|i: int, k: int| #[trigger]
            stage_takes(config.sinks@, config.global.data_dir->0@, i, k, usage);
        assert(f(i).contains(usage));
    }
}

/// Whether a stage of a sink's buffer is on disk and takes this much, in the
/// directory of the sink.
pub open spec fn stage_takes(
    sinks: Seq<(Seq<char>, SinkOuter<OutputId>)>,
    data_dir: Seq<char>,
    i: int,
    k: int,
    usage: DiskUsageModel,
) -> bool {
    &&& 0 <= i < sinks.len()
    &&& 0 <= k < sinks[i].1.buffer.stages@.len()
    &&& sinks[i].1.buffer.stages@[k] matches BufferType::DiskV2 { max_size, .. } && max_size
        == usage.max_size
    &&& usage.id == sinks[i].0
    &&& usage.data_dir == data_dir + "/buffer/v2/"@ + sinks[i].0
}

} // verus!
