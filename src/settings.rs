//! The save, load and swap operations over the client's settings files.
//!
//! An operation reads one source file and then writes a planned list of
//! files. `plan` computes that list from what was read; `Store` carries the
//! files in memory and runs whole operations on them.
use vstd::prelude::*;
use crate::region::{swap_region, swapped_region};

verus! {

/// The files that the operations read and write.
#[derive(Clone, Copy, PartialEq, Eq, Structural, Debug)]
pub enum FileId {
    /// The settings file that the client reads.
    Live,
    /// A safety copy of the settings, written once.
    Backup,
    /// The permanent save slot.
    Permanent,
    /// The temporary save slot.
    Temporary,
    /// The client's region settings.
    Region,
}

/// A save slot.
#[derive(Clone, Copy, PartialEq, Eq, Structural, Debug)]
pub enum Slot {
    Permanent,
    Temporary,
}

/// An operation on the files.
#[derive(Clone, Copy, PartialEq, Eq, Structural, Debug)]
pub enum Operation {
    SaveToSlot(Slot),
    LoadFromSlot(Slot),
    SwapRegion,
}

/// Why an operation failed, and on which file.
#[derive(Clone, Copy, PartialEq, Eq, Structural, Debug)]
pub enum SettingsError {
    Read(FileId),
    Write(FileId),
}

/// One whole-file write: `data` replaces the content of `target`.
pub struct FileWrite {
    pub target: FileId,
    pub data: Vec<u8>,
}

impl View for FileWrite {
    type V = (FileId, Seq<u8>);

    open spec fn view(&self) -> (FileId, Seq<u8>) {
        (self.target, self.data@)
    }
}

/// The files as a map from each existing file to its content.
pub type Files = Map<FileId, Seq<u8>>;

pub open spec fn slot_file(slot: Slot) -> FileId {
    match slot {
        Slot::Permanent => FileId::Permanent,
        Slot::Temporary => FileId::Temporary,
    }
}

/// The file that an operation reads first.
pub open spec fn source_file(op: Operation) -> FileId {
    match op {
        Operation::SaveToSlot(_) => FileId::Live,
        Operation::LoadFromSlot(slot) => slot_file(slot),
        Operation::SwapRegion => FileId::Region,
    }
}

/// The name of each file in the client's configuration directory.
pub open spec fn file_name_of(id: FileId) -> Seq<char> {
    match id {
        FileId::Live => "PersistedSettings.json"@,
        FileId::Backup => "PersistedSettingsBackup.json"@,
        FileId::Permanent => "PersistedSettingsPermanent.json"@,
        FileId::Temporary => "PersistedSettingsTemporary.json"@,
        FileId::Region => "LeagueClientSettings.yaml"@,
    }
}

/// The backup write that an operation owes: a copy of `contents`, where no
/// backup exists yet.
pub open spec fn backup_writes(backup_exists: bool, contents: Seq<u8>) -> Seq<(FileId, Seq<u8>)> {
    if backup_exists {
        seq![]
    } else {
        seq![(FileId::Backup, contents)]
    }
}

/// The writes of an operation whose source file held `source`, in order.
pub open spec fn planned_writes(op: Operation, source: Seq<u8>, backup_exists: bool) -> Seq<
    (FileId, Seq<u8>),
> {
    match op {
        Operation::SaveToSlot(slot) => backup_writes(backup_exists, source).push(
            (slot_file(slot), source),
        ),
        Operation::LoadFromSlot(_) => backup_writes(backup_exists, source).push(
            (FileId::Live, source),
        ),
        Operation::SwapRegion => seq![(FileId::Region, swapped_region(source))],
    }
}

/// The files after the writes `ws`, made one after the other.
pub open spec fn apply_writes(fs: Files, ws: Seq<(FileId, Seq<u8>)>) -> Files
    decreases ws.len(),
{
    if ws.len() == 0 {
        fs
    } else {
        apply_writes(fs.insert(ws[0].0, ws[0].1), ws.drop_first())
    }
}

/// The files after running `op`: nothing changes where its source is missing.
pub open spec fn run_operation(fs: Files, op: Operation) -> Files {
    if fs.contains_key(source_file(op)) {
        apply_writes(
            fs,
            planned_writes(op, fs[source_file(op)], fs.contains_key(FileId::Backup)),
        )
    } else {
        fs
    }
}

/// The files after running the operations `ops` in order.
pub open spec fn run_operations(fs: Files, ops: Seq<Operation>) -> Files
    decreases ops.len(),
{
    if ops.len() == 0 {
        fs
    } else {
        run_operations(run_operation(fs, ops[0]), ops.drop_first())
    }
}

impl Slot {
    /// The file that holds this slot.
    pub fn file(&self) -> (r: FileId)
        ensures
            r == slot_file(*self),
    {
        match self {
            Slot::Permanent => FileId::Permanent,
            Slot::Temporary => FileId::Temporary,
        }
    }
}

impl FileId {
    /// The file's name in the client's configuration directory.
    pub fn file_name(&self) -> (r: &'static str)
        ensures
            r@ == file_name_of(*self),
    {
        match self {
            FileId::Live => "PersistedSettings.json",
            FileId::Backup => "PersistedSettingsBackup.json",
            FileId::Permanent => "PersistedSettingsPermanent.json",
            FileId::Temporary => "PersistedSettingsTemporary.json",
            FileId::Region => "LeagueClientSettings.yaml",
        }
    }
}

impl Operation {
    /// The file that this operation reads first.
    pub fn source(&self) -> (r: FileId)
        ensures
            r == source_file(*self),
    {
        match self {
            Operation::SaveToSlot(_) => FileId::Live,
            Operation::LoadFromSlot(slot) => slot.file(),
            Operation::SwapRegion => FileId::Region,
        }
    }
}

fn copy_bytes(v: &Vec<u8>) -> (r: Vec<u8>)
    ensures
        r@ == v@,
{
    let mut r: Vec<u8> = Vec::new();
    let mut k: usize = 0;
    while k < v.len()
        invariant
            k <= v@.len(),
            r@ =~= v@.subrange(0, k as int),
        decreases v@.len() - k,
    {
        r.push(v[k]);
        k = k + 1;
    }
    r
}

/// The backup write owed before an operation writes: a copy of
/// `config_contents` where no backup exists yet, and nothing where one does.
pub fn handle_backup_of_original(backup_exists: bool, config_contents: &Vec<u8>) -> (r: Option<
    FileWrite,
>)
    ensures
        backup_exists ==> r is None,
        !backup_exists ==> (r matches Some(w) && w@ == (FileId::Backup, config_contents@)),
{
    if backup_exists {
        None
    } else {
        Some(FileWrite { target: FileId::Backup, data: copy_bytes(config_contents) })
    }
}

/// The writes of `op`, in order, once its source file was read as `source`
/// and the backup was found to exist or not.
pub fn plan_writes(op: Operation, source: Vec<u8>, backup_exists: bool) -> (r: Vec<FileWrite>)
    ensures
        r@.map_values(|w: FileWrite| w@) == planned_writes(op, source@, backup_exists),
{
    match op {
        Operation::SwapRegion => {
            let swapped = swap_region(source.as_slice());
            let mut r: Vec<FileWrite> = Vec::new();
            r.push(FileWrite { target: FileId::Region, data: swapped });
            assert(r@.map_values(|w: FileWrite| w@) =~= planned_writes(op, source@, backup_exists));
            r
        },
        _ => {
            let target = match op {
                Operation::SaveToSlot(slot) => slot.file(),
                _ => FileId::Live,
            };
            let mut r: Vec<FileWrite> = Vec::new();
            if let Some(w) = handle_backup_of_original(backup_exists, &source) {
                r.push(w);
            }
            r.push(FileWrite { target, data: source });
            assert(r@.map_values(|w: FileWrite| w@) =~= planned_writes(op, source@, backup_exists));
            r
        },
    }
}

/// What to write for `op`, given what reading its source file gave (`None`
/// where the read failed) and whether the backup exists. A failed read is
/// reported on the source file, and then nothing is written.
pub fn plan(op: Operation, source: Option<Vec<u8>>, backup_exists: bool) -> (r: Result<
    Vec<FileWrite>,
    SettingsError,
>)
    ensures
        match source {
            Some(c) => r matches Ok(ws) && ws@.map_values(|w: FileWrite| w@) == planned_writes(
                op,
                c@,
                backup_exists,
            ),
            None => r == Err::<Vec<FileWrite>, SettingsError>(
                SettingsError::Read(source_file(op)),
            ),
        },
{
    match source {
        Some(c) => Ok(plan_writes(op, c, backup_exists)),
        None => Err(SettingsError::Read(op.source())),
    }
}

/// The settings files held in memory; `None` stands for a missing file.
pub struct Store {
    live: Option<Vec<u8>>,
    backup: Option<Vec<u8>>,
    permanent: Option<Vec<u8>>,
    temporary: Option<Vec<u8>>,
    region: Option<Vec<u8>>,
}

impl Store {
    pub closed spec fn file(&self, id: FileId) -> Option<Vec<u8>> {
        match id {
            FileId::Live => self.live,
            FileId::Backup => self.backup,
            FileId::Permanent => self.permanent,
            FileId::Temporary => self.temporary,
            FileId::Region => self.region,
        }
    }
}

impl View for Store {
    type V = Files;

    open spec fn view(&self) -> Files {
        Map::new(|id: FileId| self.file(id) is Some, |id: FileId| self.file(id)->Some_0@)
    }
}

impl Store {
    /// A store in which no file exists.
    pub fn new() -> (r: Store)
        ensures
            r@ == Map::<FileId, Seq<u8>>::empty(),
    {
        let r = Store { live: None, backup: None, permanent: None, temporary: None, region: None };
        assert(r@ =~= Map::<FileId, Seq<u8>>::empty());
        r
    }

    /// Whether the file `id` exists.
    pub fn has_file(&self, id: FileId) -> (r: bool)
        ensures
            r == self@.contains_key(id),
    {
        match id {
            FileId::Live => self.live.is_some(),
            FileId::Backup => self.backup.is_some(),
            FileId::Permanent => self.permanent.is_some(),
            FileId::Temporary => self.temporary.is_some(),
            FileId::Region => self.region.is_some(),
        }
    }

    /// The content of the file `id`; a missing file fails to read.
    pub fn get_file_contents(&self, id: FileId) -> (r: Result<Vec<u8>, SettingsError>)
        ensures
            self@.contains_key(id) ==> (r matches Ok(c) && c@ == self@[id]),
            !self@.contains_key(id) ==> r == Err::<Vec<u8>, SettingsError>(SettingsError::Read(id)),
    {
        let f = match id {
            FileId::Live => &self.live,
            FileId::Backup => &self.backup,
            FileId::Permanent => &self.permanent,
            FileId::Temporary => &self.temporary,
            FileId::Region => &self.region,
        };
        match f {
            Some(c) => Ok(copy_bytes(c)),
            None => Err(SettingsError::Read(id)),
        }
    }

    /// The content of the live settings file.
    pub fn read_config_file(&self) -> (r: Result<Vec<u8>, SettingsError>)
        ensures
            self@.contains_key(FileId::Live) ==> (r matches Ok(c) && c@ == self@[FileId::Live]),
            !self@.contains_key(FileId::Live) ==> r == Err::<Vec<u8>, SettingsError>(
                SettingsError::Read(FileId::Live),
            ),
    {
        self.get_file_contents(FileId::Live)
    }

    /// Replaces the content of the file `id` by `data`, creating the file
    /// where it is missing.
    pub fn output_to_file(&mut self, id: FileId, data: Vec<u8>)
        ensures
            final(self)@ == old(self)@.insert(id, data@),
    {
        match id {
            FileId::Live => self.live = Some(data),
            FileId::Backup => self.backup = Some(data),
            FileId::Permanent => self.permanent = Some(data),
            FileId::Temporary => self.temporary = Some(data),
            FileId::Region => self.region = Some(data),
        }
        assert(final(self)@ =~= old(self)@.insert(id, data@));
    }

    /// Makes the writes `writes`, one after the other.
    pub fn apply(&mut self, writes: Vec<FileWrite>)
        ensures
            final(self)@ == apply_writes(old(self)@, writes@.map_values(|w: FileWrite| w@)),
    {
        let mut rest = writes;
        while rest.len() > 0
            invariant
                apply_writes(old(self)@, writes@.map_values(|w: FileWrite| w@)) == apply_writes(
                    self@,
                    rest@.map_values(|w: FileWrite| w@),
                ),
            decreases rest@.len(),
        {
            let ghost before = rest@.map_values(|w: FileWrite| w@);
            let w = rest.remove(0);
            assert(rest@.map_values(|w: FileWrite| w@) =~= before.drop_first());
            self.output_to_file(w.target, w.data);
        }
    }

    /// Runs `op`: reads its source file, then makes the planned writes. Fails,
    /// writing nothing, where the source file is missing.
    pub fn run(&mut self, op: Operation) -> (r: Result<(), SettingsError>)
        ensures
            final(self)@ == run_operation(old(self)@, op),
            old(self)@.contains_key(source_file(op)) ==> r is Ok,
            !old(self)@.contains_key(source_file(op)) ==> r == Err::<(), SettingsError>(
                SettingsError::Read(source_file(op)),
            ),
    {
        let source = match self.get_file_contents(op.source()) {
            Ok(c) => Some(c),
            Err(_) => None,
        };
        let backup_exists = self.has_file(FileId::Backup);
        match plan(op, source, backup_exists) {
            Ok(writes) => {
                self.apply(writes);
                Ok(())
            },
            Err(e) => Err(e),
        }
    }

    /// Copies the live settings into `slot`, first backing them up where no
    /// backup exists.
    pub fn save_to_slot(&mut self, slot: Slot) -> (r: Result<(), SettingsError>)
        ensures
            final(self)@ == run_operation(old(self)@, Operation::SaveToSlot(slot)),
            old(self)@.contains_key(FileId::Live) ==> r is Ok,
            !old(self)@.contains_key(FileId::Live) ==> r == Err::<(), SettingsError>(
                SettingsError::Read(FileId::Live),
            ),
    {
        self.run(Operation::SaveToSlot(slot))
    }

    /// Copies `slot` over the live settings, first backing up the slot's
    /// content where no backup exists.
    pub fn load_from_slot(&mut self, slot: Slot) -> (r: Result<(), SettingsError>)
        ensures
            final(self)@ == run_operation(old(self)@, Operation::LoadFromSlot(slot)),
            old(self)@.contains_key(slot_file(slot)) ==> r is Ok,
            !old(self)@.contains_key(slot_file(slot)) ==> r == Err::<(), SettingsError>(
                SettingsError::Read(slot_file(slot)),
            ),
    {
        self.run(Operation::LoadFromSlot(slot))
    }

    /// Swaps the region marker of the region settings.
    pub fn swap_region(&mut self) -> (r: Result<(), SettingsError>)
        ensures
            final(self)@ == run_operation(old(self)@, Operation::SwapRegion),
            old(self)@.contains_key(FileId::Region) ==> r is Ok,
            !old(self)@.contains_key(FileId::Region) ==> r == Err::<(), SettingsError>(
                SettingsError::Read(FileId::Region),
            ),
    {
        self.run(Operation::SwapRegion)
    }
}

/// The last write to a file decides its content.
proof fn lemma_apply_last(fs: Files, ws: Seq<(FileId, Seq<u8>)>, w: (FileId, Seq<u8>))
    ensures
        apply_writes(fs, ws.push(w)) == apply_writes(fs, ws).insert(w.0, w.1),
    decreases ws.len(),
{
    if ws.len() == 0 {
        reveal_with_fuel(apply_writes, 2);
        assert(seq![w].drop_first() =~= Seq::<(FileId, Seq<u8>)>::empty());
        assert(ws.push(w) =~= seq![w]);
    } else {
        assert(ws.push(w).drop_first() =~= ws.drop_first().push(w));
        lemma_apply_last(fs.insert(ws[0].0, ws[0].1), ws.drop_first(), w);
    }
}

/// The files after an operation that read its source, write by write.
proof fn lemma_run_operation(fs: Files, op: Operation)
    requires
        fs.contains_key(source_file(op)),
    ensures
        op !is SwapRegion && !fs.contains_key(FileId::Backup) ==> run_operation(fs, op)
            == fs.insert(FileId::Backup, fs[source_file(op)]).insert(
            planned_writes(op, fs[source_file(op)], false).last().0,
            fs[source_file(op)],
        ),
        op !is SwapRegion && fs.contains_key(FileId::Backup) ==> run_operation(fs, op)
            == fs.insert(
            planned_writes(op, fs[source_file(op)], true).last().0,
            fs[source_file(op)],
        ),
        op is SwapRegion ==> run_operation(fs, op) == fs.insert(
            FileId::Region,
            swapped_region(fs[FileId::Region]),
        ),
{
    let c = fs[source_file(op)];
    let b = fs.contains_key(FileId::Backup);
    let ws = planned_writes(op, c, b);
    reveal_with_fuel(apply_writes, 2);
    if op is SwapRegion {
        assert(ws.drop_first() =~= Seq::<(FileId, Seq<u8>)>::empty());
    } else {
        let bw = backup_writes(b, c);
        lemma_apply_last(fs, bw, ws.last());
        assert(ws =~= bw.push(ws.last()));
        if b {
            assert(bw =~= Seq::<(FileId, Seq<u8>)>::empty());
        } else {
            assert(bw.drop_first() =~= Seq::<(FileId, Seq<u8>)>::empty());
        }
    }
}

/// Saving the live settings to a slot and loading that slot right after
/// gives the live settings file back its content.
pub proof fn lemma_save_then_load(fs: Files, slot: Slot)
    requires
        fs.contains_key(FileId::Live),
    ensures
        run_operation(run_operation(fs, Operation::SaveToSlot(slot)), Operation::LoadFromSlot(slot))
            .contains_key(FileId::Live),
        run_operation(
            run_operation(fs, Operation::SaveToSlot(slot)),
            Operation::LoadFromSlot(slot),
        )[FileId::Live] == fs[FileId::Live],
{
    let saved = run_operation(fs, Operation::SaveToSlot(slot));
    lemma_run_operation(fs, Operation::SaveToSlot(slot));
    assert(saved.contains_key(slot_file(slot)));
    assert(saved[slot_file(slot)] == fs[FileId::Live]);
    lemma_run_operation(saved, Operation::LoadFromSlot(slot));
}

/// A save or load that reads its source where no backup exists leaves a
/// backup holding what it read.
pub proof fn lemma_backup_created(fs: Files, op: Operation)
    requires
        op !is SwapRegion,
        !fs.contains_key(FileId::Backup),
        fs.contains_key(source_file(op)),
    ensures
        run_operation(fs, op).contains_key(FileId::Backup),
        run_operation(fs, op)[FileId::Backup] == fs[source_file(op)],
{
    lemma_run_operation(fs, op);
}

/// Once the backup exists, no sequence of operations changes it.
pub proof fn lemma_backup_kept(fs: Files, ops: Seq<Operation>)
    requires
        fs.contains_key(FileId::Backup),
    ensures
        run_operations(fs, ops).contains_key(FileId::Backup),
        run_operations(fs, ops)[FileId::Backup] == fs[FileId::Backup],
    decreases ops.len(),
{
    if ops.len() > 0 {
        let op = ops[0];
        let next = run_operation(fs, op);
        if fs.contains_key(source_file(op)) {
            lemma_run_operation(fs, op);
        }
        assert(next.contains_key(FileId::Backup) && next[FileId::Backup] == fs[FileId::Backup]);
        lemma_backup_kept(next, ops.drop_first());
    }
}

} // verus!
