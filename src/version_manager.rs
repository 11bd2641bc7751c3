//! Choice of the next pre-encoded segment of a bitrate-laddered video.
use vstd::prelude::*;

verus! {

/// One segment file inside a version.
pub struct FileEntry {
    pub slot_index: usize,
    pub start_frame: u64,
    pub end_frame: u64,
    pub path: String,
}

/// One encoded version of the video, tied to a bitrate.
pub struct Version {
    pub label: String,
    pub bitrate_bps: u64,
    pub dir: String,
    pub files: Vec<FileEntry>,
}

/// The description of a laddered video.
pub struct Config {
    pub input: String,
    pub width: u32,
    pub height: u32,
    pub fps: u32,
    pub slot_seconds: u32,
    pub frames_per_slot: u32,
    pub bitrates_bps: Vec<u64>,
    pub slots: usize,
    pub versions: Vec<Version>,
}

impl Config {
    /// Every version has a bitrate in the ladder and a file for every slot.
    pub open spec fn consistent(&self) -> bool {
        &&& self.versions@.len() > 0
        &&& self.bitrates_bps@.len() >= self.versions@.len()
        &&& 0 < self.slots <= u32::MAX
        &&& forall|v: int|
            0 <= v < self.versions@.len() ==> (#[trigger] self.versions@[v]).files@.len()
                >= self.slots
    }
}

/// The loaded description with the selected version and the next slot.
pub struct VersionManager {
    pub cfg: Config,
    pub current_version: u32,
    pub actual_bitrate: u64,
    pub current_bitrate: u64,
    pub current_slot: u32,
}

impl VersionManager {
    pub open spec fn wf(&self) -> bool {
        &&& self.cfg.consistent()
        &&& self.current_version < self.cfg.versions@.len()
        &&& self.current_slot < self.cfg.slots
    }

    /// Starts at version 0, slot 0, with the first bitrate of the ladder;
    /// `None` where the description is not consistent.
    pub fn new(cfg: Config) -> (r: Option<Self>)
        ensures
            r is Some <==> cfg.consistent(),
            r matches Some(m) ==> {
                &&& m.wf()
                &&& m.cfg == cfg
                &&& m.current_version == 0
                &&& m.current_slot == 0
                &&& m.current_bitrate == cfg.bitrates_bps@[0]
                &&& m.actual_bitrate == cfg.bitrates_bps@[0]
            },
    {
        let nv = cfg.versions.len();
        if nv == 0 || cfg.bitrates_bps.len() < nv || cfg.slots == 0 || cfg.slots > u32::MAX as usize {
            return None;
        }
        let mut v: usize = 0;
        while v < nv
            invariant
                nv == cfg.versions@.len(),
                v <= nv,
                forall|k: int| 0 <= k < v ==> (#[trigger] cfg.versions@[k]).files@.len() >= cfg.slots,
            decreases nv - v,
        {
            if cfg.versions[v].files.len() < cfg.slots {
                return None;
            }
            v = v + 1;
        }
        let bitrate = cfg.bitrates_bps[0];
        Some(
            VersionManager {
                cfg,
                current_version: 0,
                actual_bitrate: bitrate,
                current_bitrate: bitrate,
                current_slot: 0,
            },
        )
    }

    /// The file of the current slot in the current version; the slot then
    /// advances, wrapping at the slot count.
    pub fn next(&mut self) -> (r: String)
        requires
            old(self).wf(),
        ensures
            final(self).wf(),
            r@ == old(self).cfg.versions@[old(self).current_version as int].files@[old(
                self,
            ).current_slot as int].path@,
            final(self).current_slot == if old(self).current_slot + 1 >= old(self).cfg.slots {
                0
            } else {
                old(self).current_slot + 1
            },
            final(self).actual_bitrate == old(self).cfg.bitrates_bps@[old(self).current_version as int],
            final(self).cfg == old(self).cfg,
            final(self).current_version == old(self).current_version,
            final(self).current_bitrate == old(self).current_bitrate,
    {
        let slot = self.current_slot as usize;
        self.current_slot = self.current_slot + 1;
        if self.current_slot as usize >= self.cfg.slots {
            self.current_slot = 0;
        }
        let v = self.current_version as usize;
        self.actual_bitrate = self.cfg.bitrates_bps[v];
        assert(self.cfg.versions@[v as int].files@.len() >= self.cfg.slots);
        self.cfg.versions[v].files[slot].path.clone()
    }

    pub fn available_bitrates(&self) -> (r: &[u64])
        ensures
            r@ == self.cfg.bitrates_bps@,
    {
        self.cfg.bitrates_bps.as_slice()
    }

    /// Selects version `version_index` where the description has it.
    pub fn set_version(&mut self, version_index: u32)
        requires
            old(self).wf(),
        ensures
            final(self).wf(),
            (version_index as int) < old(self).cfg.versions@.len() ==> {
                &&& final(self).current_version == version_index
                &&& final(self).current_bitrate == old(self).cfg.versions@[version_index as int].bitrate_bps
            },
            (version_index as int) >= old(self).cfg.versions@.len() ==> {
                &&& final(self).current_version == old(self).current_version
                &&& final(self).current_bitrate == old(self).current_bitrate
            },
            final(self).cfg == old(self).cfg,
            final(self).current_slot == old(self).current_slot,
            final(self).actual_bitrate == old(self).actual_bitrate,
    {
        if (version_index as usize) < self.cfg.versions.len() {
            self.current_version = version_index;
            self.current_bitrate = self.cfg.versions[version_index as usize].bitrate_bps;
        }
    }

    /// The bitrate of the version whose segment was handed out last.
    pub fn get_bitrate(&self) -> (r: u64)
        ensures
            r == self.actual_bitrate,
    {
        self.actual_bitrate
    }
}

} // verus!
