//! Mount options.

use vstd::prelude::*;

verus! {

/// What to do when the volume turns out to be damaged.
#[derive(Clone, Copy, Debug, PartialEq, Eq, Structural)]
pub enum ExfatErrorMode {
    /// Go on.
    Continue,
    /// Stop the system.
    Panic,
    /// Go on, but write no more.
    ReadOnly,
}

impl Default for ExfatErrorMode {
    fn default() -> (mode: Self)
        ensures
            mode == ExfatErrorMode::Continue,
    {
        ExfatErrorMode::Continue
    }
}

/// The options with which a volume is mounted.
#[derive(Debug)]
pub struct ExfatMountOptions {
    /// The owner of every inode.
    pub fs_uid: usize,
    /// The group of every inode.
    pub fs_gid: usize,
    /// The permissions that files do not have.
    pub fs_fmask: u16,
    /// The permissions that directories do not have.
    pub fs_dmask: u16,
    /// The permissions with which the times may be changed.
    pub allow_utime: u16,
    /// The character set of names.
    pub iocharset: String,
    /// What to do when the volume turns out to be damaged.
    pub errors: ExfatErrorMode,
    /// Whether names are in UTF-8.
    pub utf8: bool,
    /// Whether times are those of the system's time zone.
    pub sys_tz: bool,
    /// Whether freed clusters are discarded.
    pub discard: bool,
    /// Whether dots at the end of a name are kept.
    pub keep_last_dots: bool,
    /// The offset from UTC in minutes.
    pub time_offset: i32,
    /// Whether directories may have no clusters.
    pub zero_size_dir: bool,
}

/// What mount options hold.
#[verifier::ext_equal]
pub struct MountView {
    pub fs_uid: usize,
    pub fs_gid: usize,
    pub fs_fmask: u16,
    pub fs_dmask: u16,
    pub allow_utime: u16,
    pub iocharset: Seq<char>,
    pub errors: ExfatErrorMode,
    pub utf8: bool,
    pub sys_tz: bool,
    pub discard: bool,
    pub keep_last_dots: bool,
    pub time_offset: i32,
    pub zero_size_dir: bool,
}

impl View for ExfatMountOptions {
    type V = MountView;

    open spec fn view(&self) -> MountView {
        MountView {
            fs_uid: self.fs_uid,
            fs_gid: self.fs_gid,
            fs_fmask: self.fs_fmask,
            fs_dmask: self.fs_dmask,
            allow_utime: self.allow_utime,
            iocharset: self.iocharset@,
            errors: self.errors,
            utf8: self.utf8,
            sys_tz: self.sys_tz,
            discard: self.discard,
            keep_last_dots: self.keep_last_dots,
            time_offset: self.time_offset,
            zero_size_dir: self.zero_size_dir,
        }
    }
}

impl Default for ExfatMountOptions {
    fn default() -> (options: Self)
        ensures
            options@ == (MountView {
                fs_uid: 0,
                fs_gid: 0,
                fs_fmask: 0,
                fs_dmask: 0,
                allow_utime: 0,
                iocharset: Seq::<char>::empty(),
                errors: ExfatErrorMode::Continue,
                utf8: false,
                sys_tz: false,
                discard: false,
                keep_last_dots: false,
                time_offset: 0,
                zero_size_dir: false,
            }),
    {
        ExfatMountOptions {
            fs_uid: 0,
            fs_gid: 0,
            fs_fmask: 0,
            fs_dmask: 0,
            allow_utime: 0,
            iocharset: String::new(),
            errors: ExfatErrorMode::Continue,
            utf8: false,
            sys_tz: false,
            discard: false,
            keep_last_dots: false,
            time_offset: 0,
            zero_size_dir: false,
        }
    }
}

impl Clone for ExfatMountOptions {
    fn clone(&self) -> (options: Self)
        ensures
            options@ == self@,
    {
        ExfatMountOptions {
            fs_uid: self.fs_uid,
            fs_gid: self.fs_gid,
            fs_fmask: self.fs_fmask,
            fs_dmask: self.fs_dmask,
            allow_utime: self.allow_utime,
            iocharset: self.iocharset.clone(),
            errors: self.errors,
            utf8: self.utf8,
            sys_tz: self.sys_tz,
            discard: self.discard,
            keep_last_dots: self.keep_last_dots,
            time_offset: self.time_offset,
            zero_size_dir: self.zero_size_dir,
        }
    }
}

} // verus!
