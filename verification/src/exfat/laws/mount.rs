//! Opening a file system: what holds of it at the beginning.

use vstd::prelude::*;
use crate::errno::Errno;
use crate::exfat::constants::{DENTRY_SIZE, EXFAT_ROOT_INO, PAGE_SIZE};
use crate::exfat::dentry::DosTimestamp;
use crate::exfat::fat::{ClusterID, FatValue, EXFAT_BAD_CLUSTER};
use crate::exfat::fs::FsState;
use crate::exfat::laws::chain::{is_chain, vol_ok};
use crate::exfat::laws::dir::{is_dir, only_cache};
use crate::exfat::laws::fat::fat_ok;
use crate::exfat::laws::layout::{covered, laid_out, set_in, Held};
use crate::exfat::laws::open::dir_raw;
use crate::exfat::mount::MountView;
use crate::exfat::disk::Faults;
use crate::exfat::volume::VolumeState;

verus! {

/// Counting clusters changes nothing but what is kept in memory, and memory and disk still
/// agree.
proof fn lemma_count_any(v: VolumeState, cluster: ClusterID, seen: nat, fuel: nat)
    requires
        fat_ok(v),
    ensures
        only_cache(v, crate::exfat::chain::fat_count(v, cluster, seen, fuel).0),
        fat_ok(crate::exfat::chain::fat_count(v, cluster, seen, fuel).0),
    decreases fuel,
{
    if fuel > 0 {
        crate::exfat::laws::fat::law_fat_read_any(v, cluster);
        let (w, r) = crate::exfat::volume::fat_read(v, cluster);
        match r {
            Ok(FatValue::Next(next)) => {
                lemma_count_any(w, next, seen + 1, (fuel - 1) as nat);
            },
            _ => {},
        }
    }
}

/// Whether the disk reaches up to the clusters of a volume, no access to it fails, and the
/// volume has not more clusters than can be told apart.
pub open spec fn disk_fits(s: FsState) -> bool {
    &&& s.vol.faults == Faults::none()
    &&& s.vol.super_block.data_start_sector * s.vol.super_block.sector_size <= s.vol.disk.len()
    &&& s.vol.super_block.num_clusters <= EXFAT_BAD_CLUSTER
}

/// What holds of a file system that was opened: the disk is as it was, memory and disk
/// agree, the bitmap has a bit for every cluster, and the root is the only inode.
pub proof fn law_mounted(disk: Seq<u8>, faults: Faults, mount: MountView, now: DosTimestamp)
    requires
        crate::exfat::fs::mounting::fs_opened(disk, faults, mount, now) is Ok,
        disk_fits(crate::exfat::fs::mounting::fs_opened(disk, faults, mount, now)->Ok_0),
    ensures
        ({
            let s = crate::exfat::fs::mounting::fs_opened(disk, faults, mount, now)->Ok_0;
            let root = s.nodes[0];
            &&& vol_ok(s.vol)
            &&& s.vol.disk == disk
            &&& s.vol.faults == faults
            &&& s.nodes.len() == 1
            &&& s.opened_exist()
            &&& s.find(crate::exfat::inode::inode_hash(root)) == Some(0usize)
            &&& s.next_ino == EXFAT_ROOT_INO + 1
            &&& root.ino == EXFAT_ROOT_INO
            &&& root.inode_type is Dir
            &&& root.size == root.start_chain.num_clusters * s.vol.super_block.cluster_size
            &&& root.size_allocated == root.size
            &&& Ok::<u32, Errno>(root.num_subdir) == crate::exfat::inode::subdirs_counted(
                s.vol,
                root,
            )
        }),
{
    let s = crate::exfat::fs::mounting::fs_opened(disk, faults, mount, now)->Ok_0;
    let sb = crate::exfat::volume::boot_result(disk, faults)->Ok_0;
    let v = VolumeState {
        disk,
        faults,
        super_block: sb,
        bits: Seq::<bool>::empty(),
        bitmap_start: 0,
        cache: Seq::<(u32, u32)>::empty(),
    };
    let flags = crate::exfat::fat::FatChainFlags { bits: crate::exfat::fat::ALLOC_POSSIBLE };
    let (v1, r1) = crate::exfat::chain::chain_new(v, sb.root_dir, None, flags);
    crate::exfat::chain::lemma_fat_count_frame(v, sb.root_dir, 0, sb.num_clusters as nat);
    let chain = r1->Ok_0;
    let size = (chain.num_clusters * sb.cluster_size) as usize;
    let end = crate::arith::pieces(size as int, PAGE_SIZE as int);
    crate::exfat::page::lemma_pages_read_frame(v1, chain, size as int, 0, end, Seq::empty());
    assert(s.vol.super_block == sb && s.vol.disk == disk && s.vol.faults == faults);
    assert(fat_ok(v)) by {
        crate::exfat::laws::fat::law_boot_gives_layout(v);
    }
    lemma_count_any(v, sb.root_dir, 0, sb.num_clusters as nat);
    crate::exfat::laws::open::lemma_pages_any(v1, chain, size as int, 0, end, Seq::empty());
    let v2 = crate::exfat::inode::root_built(v1, chain, now).0;
    assert(vol_ok(s.vol)) by {
        assert forall|j: int| 0 <= j < s.vol.cache.len() implies
            crate::exfat::laws::fat::entry_coherent(s.vol, #[trigger] s.vol.cache[j]) by {
            assert(crate::exfat::laws::fat::entry_coherent(v2, v2.cache[j]));
        }
    }
}

/// The number of files is the number of sets of entries.
proof fn lemma_files_counted(
    pages: Seq<u8>,
    size: int,
    ws: Seq<Held>,
    slot: int,
    seen: nat,
    k: int,
)
    requires
        laid_out(pages, ws),
        0 <= slot,
        0 <= k <= ws.len(),
        size <= pages.len(),
        size % (DENTRY_SIZE as int) == 0,
        forall|j: int| 0 <= j < ws.len() ==> ((#[trigger] ws[j]).slot + 1) * DENTRY_SIZE <= size,
        forall|j: int| 0 <= j < k ==> (#[trigger] ws[j]).slot < slot,
        forall|j: int| k <= j < ws.len() ==> slot <= (#[trigger] ws[j]).slot,
    ensures
        crate::exfat::inode::files_counted(pages, size, slot, seen) == Ok::<nat, Errno>(
            (seen + (ws.len() - k)) as nat,
        ),
    decreases pages.len() - slot * DENTRY_SIZE,
{
    if slot * DENTRY_SIZE >= size {
        assert(k == ws.len()) by {
            if k < ws.len() {
                assert(slot <= ws[k].slot);
            }
        }
    } else {
        assert(crate::exfat::dentry::has_slot(pages, slot));
        if crate::exfat::dentry::slot_kind(pages, slot) is File {
            lemma_file_entry(pages, ws, slot, k);
            assert forall|j: int| k + 1 <= j < ws.len() implies slot + 1 <= (
            #[trigger] ws[j]).slot by {
                reveal(laid_out);
                assert(set_in(pages, ws[k].slot, ws[k].width));
                assert(ws[k].slot + ws[k].width <= ws[j].slot);
            }
            lemma_files_counted(pages, size, ws, slot + 1, seen + 1, k + 1);
        } else {
            assert forall|j: int| k <= j < ws.len() implies slot + 1 <= (
            #[trigger] ws[j]).slot by {
                reveal(laid_out);
                assert(set_in(pages, ws[j].slot, ws[j].width));
            }
            lemma_files_counted(pages, size, ws, slot + 1, seen, k);
        }
    }
}

/// A file entry is the first entry of the next set.
proof fn lemma_file_entry(pages: Seq<u8>, ws: Seq<Held>, slot: int, k: int)
    requires
        laid_out(pages, ws),
        crate::exfat::dentry::has_slot(pages, slot),
        crate::exfat::dentry::slot_kind(pages, slot) is File,
        0 <= k <= ws.len(),
        forall|j: int| 0 <= j < k ==> (#[trigger] ws[j]).slot < slot,
        forall|j: int| k <= j < ws.len() ==> slot <= (#[trigger] ws[j]).slot,
    ensures
        k < ws.len(),
        ws[k].slot == slot,
{
    reveal(laid_out);
    assert(covered(ws, slot));
    let j = choose|j: int|
        0 <= j < ws.len() && (#[trigger] ws[j]).slot <= slot < ws[j].slot + ws[j].width;
    assert(set_in(pages, ws[j].slot, ws[j].width));
    if ws[j].slot + 2 <= slot {
        assert(crate::exfat::dentry::slot_kind(pages, slot) is Name);
    }
    assert(ws[j].slot == slot);
    assert(j >= k);
    if j > k {
        assert(set_in(pages, ws[k].slot, ws[k].width));
        assert(ws[k].slot + ws[k].width <= ws[j].slot);
    }
}

/// The number of bytes of pages that were read.
pub proof fn lemma_pages_len(
    v: VolumeState,
    chain: crate::exfat::chain::ExfatChain,
    size: int,
    idx: int,
    end: int,
    before: Seq<u8>,
)
    requires
        idx <= end,
    ensures
        crate::exfat::page::pages_read(v, chain, size, idx, end, before).1 matches Ok(pages)
            ==> pages.len() == before.len() + (end - idx) * PAGE_SIZE,
    decreases end - idx,
{
    if idx < end {
        let (v1, r) = crate::exfat::page::page_read(v, chain, size, idx);
        if r is Ok {
            assert(r->Ok_0.len() == PAGE_SIZE);
            lemma_pages_len(v1, chain, size, idx + 1, end, before + r->Ok_0);
        }
    }
}

/// The root of a file system that was opened is a directory in whose pages the entries
/// stand that are there, where its clusters are in use and its size is not too large.
pub proof fn law_mounted_root(
    disk: Seq<u8>,
    faults: Faults,
    mount: MountView,
    now: DosTimestamp,
    cs: Seq<ClusterID>,
    ws: Seq<Held>,
)
    requires
        crate::exfat::fs::mounting::fs_opened(disk, faults, mount, now) is Ok,
        ({
            let s = crate::exfat::fs::mounting::fs_opened(disk, faults, mount, now)->Ok_0;
            let root = s.nodes[0];
            &&& disk_fits(s)
            &&& is_chain(s.vol, root.start_chain, cs)
            &&& root.size <= DENTRY_SIZE * u32::MAX
            &&& root.size + PAGE_SIZE <= usize::MAX
            &&& laid_out(root.pages, ws)
            &&& forall|k: int|
                0 <= k < ws.len() ==> ((#[trigger] ws[k]).slot + ws[k].width) * DENTRY_SIZE
                    <= root.size
            &&& ws.len() <= u32::MAX
            &&& ws.len() + 2 <= usize::MAX
        }),
    ensures
        dir_raw(
            crate::exfat::fs::mounting::fs_opened(disk, faults, mount, now)->Ok_0,
            0,
            cs,
            ws,
            0,
        ),
{
    law_mounted(disk, faults, mount, now);
    let s = crate::exfat::fs::mounting::fs_opened(disk, faults, mount, now)->Ok_0;
    let root = s.nodes[0];
    let sb = s.vol.super_block;
    let z = sb.cluster_size as int;
    lemma_root_pages(disk, faults, mount, now);
    crate::exfat::laws::create::lemma_cluster_size(sb);
    let h = z / 32;
    assert(cs.len() * z == 32 * (cs.len() * h)) by (nonlinear_arith)
        requires
            z == 32 * h,
    ;
    crate::arith::lemma_rounded_up(root.size as int, PAGE_SIZE as int);
    assert forall|j: int| 0 <= j < ws.len() implies ((#[trigger] ws[j]).slot + 1) * DENTRY_SIZE
        <= root.size && 0 <= ws[j].slot && 0 < ws[j].width by {
        reveal(laid_out);
        assert(set_in(root.pages, ws[j].slot, ws[j].width));
    }
    assert(is_dir(s, 0, cs));
    assert(root.num_subdir == ws.len()) by {
        if cs.len() > 0 {
            assert(crate::exfat::laws::chain::taken(s.vol, cs[0]));
            lemma_files_counted(root.pages, root.size as int, ws, 0, 0, 0);
        } else {
            let n = root.start_chain.num_clusters as int;
            assert(n * z == 0) by (nonlinear_arith)
                requires
                    n == 0,
            ;
            assert(ws.len() == 0) by {
                if ws.len() > 0 {
                    assert((ws[0].slot + 1) * DENTRY_SIZE <= root.size);
                }
            }
            lemma_files_counted(root.pages, root.size as int, ws, 0, 0, 0);
        }
    }
    assert forall|x: int| 0 <= x < ws.len() implies crate::exfat::laws::open::raw_entry(
        s,
        0,
        cs,
        #[trigger] ws[x],
    ) by {
        crate::exfat::laws::dir::lemma_own_hash(s, 0, cs, ws[x].slot);
    }
    reveal(dir_raw);
}

/// The pages of the root hold its size.
proof fn lemma_root_pages(disk: Seq<u8>, faults: Faults, mount: MountView, now: DosTimestamp)
    requires
        crate::exfat::fs::mounting::fs_opened(disk, faults, mount, now) is Ok,
    ensures
        ({
            let root = crate::exfat::fs::mounting::fs_opened(disk, faults, mount, now)->Ok_0.nodes[0];
            root.pages.len() == crate::arith::rounded_up(root.size as int, PAGE_SIZE as int)
        }),
{
    let sb = crate::exfat::volume::boot_result(disk, faults)->Ok_0;
    let v = VolumeState {
        disk,
        faults,
        super_block: sb,
        bits: Seq::<bool>::empty(),
        bitmap_start: 0,
        cache: Seq::<(u32, u32)>::empty(),
    };
    let flags = crate::exfat::fat::FatChainFlags { bits: crate::exfat::fat::ALLOC_POSSIBLE };
    let (v1, r1) = crate::exfat::chain::chain_new(v, sb.root_dir, None, flags);
    let chain = r1->Ok_0;
    let size = (chain.num_clusters * v1.super_block.cluster_size) as usize;
    let end = crate::arith::pieces(size as int, PAGE_SIZE as int);
    crate::arith::lemma_rounded_up(size as int, PAGE_SIZE as int);
    lemma_pages_len(v1, chain, size as int, 0, end, Seq::empty());
}

/// The first entry of a kind.
proof fn lemma_slot_of_kind(pages: Seq<u8>, kind: crate::exfat::dentry::DentryKind, slot: int)
    requires
        0 <= slot,
    ensures
        crate::exfat::fs::mounting::slot_of_kind(pages, kind, slot) matches Some(k) ==> slot <= k
            && (k + 1) * DENTRY_SIZE <= pages.len() && crate::exfat::dentry::kind_of(
            pages[k * DENTRY_SIZE],
        ) == kind && forall|j: int|
            slot <= j < k ==> crate::exfat::dentry::kind_of(#[trigger] pages[j * DENTRY_SIZE])
                != kind,
    decreases pages.len() - slot * DENTRY_SIZE,
{
    if crate::exfat::dentry::has_slot(pages, slot) && crate::exfat::dentry::slot_kind(pages, slot)
        != kind {
        lemma_slot_of_kind(pages, kind, slot + 1);
    }
}

/// Whether the entry with the number `k` of a directory is the first that begins with a byte.
pub open spec fn first_entry(pages: Seq<u8>, first: u8, k: int) -> bool {
    &&& 0 <= k
    &&& 32 * k + 32 <= pages.len()
    &&& pages[32 * k] == first
    &&& forall|j: int| 0 <= j < k ==> #[trigger] pages[j * 32] != first
}

/// A file system that was opened has the layout that its boot sector gives and the options that
/// it was opened with. The clusters that are in use are those of which the bitmap on the disk
/// says so, which begins at the cluster that the first bitmap entry of the root directory
/// names; the first entry of the up-case table says where that is.
pub proof fn law_mounted_bitmap(
    disk: Seq<u8>,
    faults: Faults,
    mount: MountView,
    now: DosTimestamp,
) -> (r: (int, int))
    requires
        crate::exfat::fs::mounting::fs_opened(disk, faults, mount, now) is Ok,
    ensures
        ({
            let s = crate::exfat::fs::mounting::fs_opened(disk, faults, mount, now)->Ok_0;
            let root = s.nodes[0];
            let sb = s.vol.super_block;
            let (k, u) = r;
            let begin = ((s.vol.bitmap_start - 2) * sb.sect_per_cluster + sb.data_start_sector)
                * sb.sector_size;
            &&& s.mount == mount
            &&& sb == crate::exfat::super_block::super_block_of(disk.subrange(0, 512))
            &&& root.start_chain.current == sb.root_dir
            &&& root.ctime == now && root.mtime == now && root.atime == now
            &&& first_entry(root.pages, 0x81, k)
            &&& s.vol.bitmap_start == crate::bytes::le32(root.pages, 32 * k + 20)
            &&& s.vol.bits.len() == sb.num_clusters - 2
            &&& forall|j: int|
                0 <= j < s.vol.bits.len() ==> (#[trigger] s.vol.bits[j] <==> (disk[begin + j / 8]
                    >> ((j % 8) as u8)) & 1 == 1)
            &&& first_entry(root.pages, 0x82, u)
            &&& s.upcase.start_cluster == crate::bytes::le32(root.pages, 32 * u + 20)
            &&& s.upcase.size == crate::bytes::le64(root.pages, 32 * u + 24)
        }),
{
    let s = crate::exfat::fs::mounting::fs_opened(disk, faults, mount, now)->Ok_0;
    let root = s.nodes[0];
    let boot = disk.subrange(0, 512);
    let sb = crate::exfat::volume::boot_result(disk, faults)->Ok_0;
    crate::exfat::super_block::lemma_super_block_wf(boot);
    let v = VolumeState {
        disk,
        faults,
        super_block: sb,
        bits: Seq::<bool>::empty(),
        bitmap_start: 0,
        cache: Seq::<(u32, u32)>::empty(),
    };
    let flags = crate::exfat::fat::FatChainFlags { bits: crate::exfat::fat::ALLOC_POSSIBLE };
    let (v1, r1) = crate::exfat::chain::chain_new(v, sb.root_dir, None, flags);
    crate::exfat::chain::lemma_fat_count_frame(v, sb.root_dir, 0, sb.num_clusters as nat);
    let chain = r1->Ok_0;
    let size = (chain.num_clusters * sb.cluster_size) as usize;
    let end = crate::arith::pieces(size as int, PAGE_SIZE as int);
    crate::exfat::page::lemma_pages_read_frame(v1, chain, size as int, 0, end, Seq::empty());
    let v2 = crate::exfat::inode::root_built(v1, chain, now).0;
    assert(v2.super_block == sb && v2.disk == disk && v2.faults == faults);
    lemma_slot_of_kind(root.pages, crate::exfat::dentry::DentryKind::Bitmap, 0);
    lemma_slot_of_kind(root.pages, crate::exfat::dentry::DentryKind::Upcase, 0);
    let k = crate::exfat::fs::mounting::slot_of_kind(
        root.pages,
        crate::exfat::dentry::DentryKind::Bitmap,
        0,
    )->Some_0;
    let u = crate::exfat::fs::mounting::slot_of_kind(
        root.pages,
        crate::exfat::dentry::DentryKind::Upcase,
        0,
    )->Some_0;
    let n = sb.num_clusters - 2;
    let begin = crate::exfat::volume::cluster_offset(sb, s.vol.bitmap_start as int);
    let len = crate::arith::pieces(n, 8);
    crate::arith::lemma_rounded_up(n, 8);
    let bytes = disk.subrange(begin, begin + len);
    assert(s.vol.bits == crate::exfat::bitmap::bits_of_bytes(bytes, n));
    assert(0 <= begin) by (nonlinear_arith)
        requires
            begin == ((s.vol.bitmap_start - 2) * sb.sect_per_cluster + sb.data_start_sector)
                * sb.sector_size,
            2 <= s.vol.bitmap_start,
            0 <= sb.sect_per_cluster,
            0 <= sb.data_start_sector,
            0 <= sb.sector_size,
    ;
    assert forall|j: int| 0 <= j < s.vol.bits.len() implies (#[trigger] s.vol.bits[j] <==> (
    disk[begin + j / 8] >> ((j % 8) as u8)) & 1 == 1) by {
        crate::exfat::laws::format::law_bitmap_bits(bytes, n, j);
        assert(bytes[j / 8] == disk[begin + j / 8]);
    }
    (k, u)
}

} // verus!
