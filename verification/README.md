# exfat_core

A verified exFAT file system, the block layer beneath it, and a model of a file tree
that the file system is exercised against.

- `src/exfat/` holds the file system. Its state is described by ghost values
  (`VolumeState`, `FsState`, `InodeView`), and every operation is stated as a function
  from one state to the next and a result. It runs on anything that is a
  `disk::BlockDevice`, and where an access to the disk fails, the error comes back.
  `src/exfat/laws/` holds what follows for files, directories, cluster chains, the bitmap,
  failing disks and mounting.
- `src/block/` holds block numbers, I/O requests, the queue that merges them, and the
  table of devices.
- `src/ext2/` holds the map of the holes of a file.
- `src/random_test/` holds the model of a tree of directories and files, the operations
  that are drawn for it, and the laws that a directory or a file of the file system
  answers as the model does.
- `app/` makes disks of images, starts threads and keeps the device table that is shared
  between them.

The library trusts `lru::LruCache`, `hashbrown::HashMap`, `bitvec::vec::BitVec` and
`String::from_utf16_lossy`; what it takes from each stands above the function that calls
it. A disk is taken to do what `disk::BlockDevice` says of it: it holds bytes, and the
accesses that fail on it always do. `disk::ExfatMemoryDisk` is proved to; a disk that is
written without a specification, such as the one in `app/`, is taken at its word. Everything
else is proved.
