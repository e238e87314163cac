//! What holds of every page and every store, proved over the models that the
//! contracts of `Page` and `Ram` speak of.
use crate::page::{is_slot_offset, write_slot, zero_slot, PageView, CAPACITY};
use crate::process::PROCESS_SIZE;
use crate::ram::{any_held, PAGE_SIZE, RAM_SIZE};
use vstd::prelude::*;

verus! {

/// The page after processes with the identifiers `pids` have been loaded one
/// after the other.
pub open spec fn load_all(page: PageView, pids: Seq<u16>) -> PageView
    decreases pids.len(),
{
    if pids.len() == 0 {
        page
    } else {
        load_all(page, pids.drop_last()).after_load(pids.last())
    }
}

/// The page after the processes with the identifiers `pids` have been
/// unloaded one after the other.
pub open spec fn unload_all(page: PageView, pids: Seq<u16>) -> PageView
    decreases pids.len(),
{
    if pids.len() == 0 {
        page
    } else {
        unload_all(page, pids.drop_last()).after_unload(pids.last())
    }
}

/// The bytes of the store after the processes with the identifiers `pids`
/// have been unloaded from `page` one after the other.
pub open spec fn unload_all_bytes(page: PageView, bytes: Seq<u8>, pids: Seq<u16>) -> Seq<u8>
    decreases pids.len(),
{
    if pids.len() == 0 {
        bytes
    } else {
        zero_slot(
            unload_all_bytes(page, bytes, pids.drop_last()),
            unload_all(page, pids.drop_last()).slot_of(pids.last()),
            PROCESS_SIZE as int,
        )
    }
}

/// The identifiers in a sequence are those in all of it but the last,
/// and the last.
proof fn lemma_ids_of_longer(pids: Seq<u16>)
    requires
        pids.len() > 0,
    ensures
        pids.to_set() =~= pids.drop_last().to_set().insert(pids.last()),
        pids.no_duplicates() ==> pids.drop_last().no_duplicates() && !pids.drop_last().to_set().contains(
            pids.last(),
        ),
{
    let front = pids.drop_last();
    assert forall|p: u16| pids.to_set().contains(p) implies front.to_set().insert(
        pids.last(),
    ).contains(p) by {
        let j = choose|j: int| 0 <= j < pids.len() && pids[j] == p;
        if j < front.len() {
            assert(front[j] == p);
        }
    }
    assert forall|p: u16| front.to_set().insert(pids.last()).contains(p) implies pids.to_set().contains(
        p,
    ) by {
        if p == pids.last() {
            assert(pids[pids.len() - 1] == p);
        } else {
            let j = choose|j: int| 0 <= j < front.len() && front[j] == p;
            assert(pids[j] == p);
        }
    }
    if pids.no_duplicates() {
        if front.to_set().contains(pids.last()) {
            let j = choose|j: int| 0 <= j < front.len() && front[j] == pids.last();
            assert(pids[j] == pids[pids.len() - 1]);
        }
    }
}

/// A load that is not refused keeps the page's invariant, and the new
/// process's slot is the one that the bump counter pointed at.
pub proof fn lemma_load_keeps_wf(page: PageView, held: Seq<bool>, pid: u16)
    requires
        page.wf(),
        page.load_refusal(held) is None,
    ensures
        page.after_load(pid).wf(),
        page.after_load(pid).table.contains_key(pid),
        page.after_load(pid).slot_of(pid) == page.next_slot(),
        page.after_load(pid).loaded == page.loaded + 1,
{
    let offset = page.loaded * PROCESS_SIZE;
    assert(is_slot_offset(offset as int)) by (nonlinear_arith)
        requires
            offset == page.loaded * 32,
            page.loaded < 8,
            PROCESS_SIZE == 32,
            PAGE_SIZE == 256,
    ;
    let after = page.after_load(pid);
    assert(after.table.dom() =~= page.table.dom().insert(pid));
    assert forall|p: u16| #[trigger] after.table.contains_key(p) implies is_slot_offset(
        after.table[p] as int,
    ) by {
        if p != pid {
            assert(page.table.contains_key(p));
        }
    }
}

/// While the counter equals the number of table entries, loading a process
/// whose identifier the table does not know keeps it so.
pub proof fn lemma_load_fresh_pid_counts(page: PageView, pid: u16)
    requires
        page.wf(),
        page.loaded == page.table.len(),
        !page.table.contains_key(pid),
    ensures
        page.after_load(pid).loaded == page.after_load(pid).table.len(),
{
    assert(page.after_load(pid).table.dom() =~= page.table.dom().insert(pid));
}

/// An unload that is not refused keeps the page's invariant, and while the
/// counter equals the number of table entries it keeps that too.
pub proof fn lemma_unload_keeps_wf(page: PageView, held: Seq<bool>, pid: u16)
    requires
        page.wf(),
        page.unload_refusal(held, pid) is None,
    ensures
        page.loaded > 0,
        page.after_unload(pid).wf(),
        page.after_unload(pid).loaded == page.loaded - 1,
        !page.after_unload(pid).table.contains_key(pid),
        page.loaded == page.table.len() ==> page.after_unload(pid).loaded == page.after_unload(
            pid,
        ).table.len(),
{
    let after = page.after_unload(pid);
    assert(page.table.dom().contains(pid));
    assert(page.table.dom().len() > 0) by {
        if page.table.dom().len() == 0 {
            assert(page.table.dom() =~= Set::empty());
        }
    }
    assert(after.table.dom() =~= page.table.dom().remove(pid));
    assert forall|p: u16| #[trigger] after.table.contains_key(p) implies is_slot_offset(
        after.table[p] as int,
    ) by {
        assert(page.table.contains_key(p));
    }
}

/// Round trip: a process that is unloaded right after it was loaded comes
/// back with the instructions it was loaded with, its slot is all zero
/// afterwards, and the counter is where it was. If the table did not know
/// the identifier before, the whole page is as it was.
pub proof fn lemma_load_then_unload(
    page: PageView,
    bytes: Seq<u8>,
    held: Seq<bool>,
    pid: u16,
    instructions: Seq<u8>,
)
    requires
        page.wf(),
        bytes.len() == RAM_SIZE,
        instructions.len() == PROCESS_SIZE,
        page.load_refusal(held) is None,
    ensures
        ({
            let loaded = page.after_load(pid);
            let written = write_slot(bytes, page.next_slot(), instructions);
            let slot = loaded.slot_of(pid);
            &&& loaded.unload_refusal(held, pid) is None
            &&& written.subrange(slot, slot + PROCESS_SIZE) == instructions
            &&& forall|i: int|
                slot <= i < slot + PROCESS_SIZE ==> #[trigger] zero_slot(
                    written,
                    slot,
                    PROCESS_SIZE as int,
                )[i] == 0
            &&& loaded.after_unload(pid).loaded == page.loaded
            &&& !page.table.contains_key(pid) ==> loaded.after_unload(pid) == page
        }),
{
    lemma_load_keeps_wf(page, held, pid);
    let loaded = page.after_load(pid);
    let written = write_slot(bytes, page.next_slot(), instructions);
    let slot = loaded.slot_of(pid);
    assert(written.subrange(slot, slot + PROCESS_SIZE) =~= instructions);
    if !page.table.contains_key(pid) {
        assert(loaded.after_unload(pid).table =~= page.table);
    }
}

/// Loading one process after the other into a page with enough free slots,
/// in a store where no byte of the page's window is held, is never refused,
/// and raises the counter by the number of processes. If the counter
/// equalled the number of table entries and the identifiers are new and
/// distinct, it still does.
pub proof fn lemma_load_all(page: PageView, held: Seq<bool>, pids: Seq<u16>)
    requires
        page.wf(),
        page.loaded + pids.len() <= CAPACITY,
        !any_held(held, page.start as int, PAGE_SIZE as int),
    ensures
        load_all(page, pids).wf(),
        load_all(page, pids).start == page.start,
        load_all(page, pids).loaded == page.loaded + pids.len(),
        forall|k: int|
            0 <= k < pids.len() ==> (#[trigger] load_all(page, pids.take(k))).load_refusal(held)
                is None,
        (page.loaded == page.table.len() && pids.no_duplicates() && forall|k: int|
            0 <= k < pids.len() ==> !page.table.contains_key(#[trigger] pids[k])) ==> {
            &&& load_all(page, pids).loaded == load_all(page, pids).table.len()
            &&& load_all(page, pids).table.dom() =~= page.table.dom().union(pids.to_set())
        },
    decreases pids.len(),
{
    if pids.len() == 0 {
        assert(pids.to_set() =~= Set::empty());
        assert(page.table.dom().union(pids.to_set()) =~= page.table.dom());
    } else {
        let front = pids.drop_last();
        let before = load_all(page, front);
        lemma_load_all(page, held, front);
        lemma_free_window_admits_load(before, held);
        lemma_load_keeps_wf(before, held, pids.last());
        assert forall|k: int| 0 <= k < pids.len() implies (#[trigger] load_all(
            page,
            pids.take(k),
        )).load_refusal(held) is None by {
            if k < front.len() {
                assert(pids.take(k) =~= front.take(k));
            } else {
                assert(pids.take(k) =~= front);
            }
        }
        if page.loaded == page.table.len() && pids.no_duplicates() && forall|k: int|
            0 <= k < pids.len() ==> !page.table.contains_key(#[trigger] pids[k]) {
            assert forall|k: int| 0 <= k < front.len() implies !page.table.contains_key(
                #[trigger] front[k],
            ) by {
                assert(front[k] == pids[k]);
            }
            lemma_ids_of_longer(pids);
            assert(!page.table.contains_key(pids[pids.len() - 1]));
            assert(!before.table.contains_key(pids.last()));
            lemma_load_fresh_pid_counts(before, pids.last());
            assert(load_all(page, pids).table.dom() =~= before.table.dom().insert(pids.last()));
        }
    }
}

/// In a page that is not full, a window without held bytes admits the next
/// load.
pub proof fn lemma_free_window_admits_load(page: PageView, held: Seq<bool>)
    requires
        page.wf(),
        page.loaded < CAPACITY,
        !any_held(held, page.start as int, PAGE_SIZE as int),
    ensures
        page.load_refusal(held) is None,
{
    let slot = page.next_slot();
    assert(page.start <= slot && slot + PROCESS_SIZE <= page.start + PAGE_SIZE)
        by (nonlinear_arith)
        requires
            slot == page.start + page.loaded * 32,
            page.loaded < 8,
            PROCESS_SIZE == 32,
            PAGE_SIZE == 256,
    ;
    if any_held(held, slot, PROCESS_SIZE as int) {
        let i = choose|i: int|
            slot <= i < slot + PROCESS_SIZE && 0 <= i < held.len() && #[trigger] held[i];
        assert(page.start <= i < page.start + PAGE_SIZE && held[i]);
    }
}

/// Unloading processes that the table knows, each once and one after the
/// other, from a page whose counter equals the number of table entries, in a
/// store where no byte of the page's window is held, is never refused. It
/// lowers the counter by their number, takes just their entries out of the
/// table, and leaves zero in each of their slots and every other byte as it
/// was. When these are all the processes of the table, the page ends empty.
pub proof fn lemma_unload_all(page: PageView, bytes: Seq<u8>, held: Seq<bool>, pids: Seq<u16>)
    requires
        page.wf(),
        bytes.len() == RAM_SIZE,
        page.loaded == page.table.len(),
        pids.no_duplicates(),
        forall|k: int| 0 <= k < pids.len() ==> page.table.contains_key(#[trigger] pids[k]),
        !any_held(held, page.start as int, PAGE_SIZE as int),
    ensures
        unload_all(page, pids).wf(),
        unload_all(page, pids).start == page.start,
        unload_all(page, pids).loaded == page.loaded - pids.len(),
        unload_all(page, pids).loaded == unload_all(page, pids).table.len(),
        unload_all(page, pids).table == page.table.remove_keys(pids.to_set()),
        forall|k: int|
            0 <= k < pids.len() ==> (#[trigger] unload_all(page, pids.take(k))).unload_refusal(
                held,
                pids[k],
            ) is None,
        unload_all_bytes(page, bytes, pids).len() == bytes.len(),
        forall|i: int|
            0 <= i < bytes.len() ==> #[trigger] unload_all_bytes(page, bytes, pids)[i] == (if exists|
                k: int,
            |
                0 <= k < pids.len() && page.slot_of(#[trigger] pids[k]) <= i < page.slot_of(pids[k])
                    + PROCESS_SIZE {
                0u8
            } else {
                bytes[i]
            }),
        pids.to_set() == page.table.dom() ==> {
            &&& unload_all(page, pids).loaded == 0
            &&& unload_all(page, pids).table == Map::<u16, usize>::empty()
        },
    decreases pids.len(),
{
    if pids.len() == 0 {
        assert(pids.to_set() =~= Set::empty());
        assert(page.table.remove_keys(pids.to_set()) =~= page.table);
        if pids.to_set() == page.table.dom() {
            assert(page.table =~= Map::<u16, usize>::empty());
        }
    } else {
        let front = pids.drop_last();
        let last = pids.last();
        let before = unload_all(page, front);
        let before_bytes = unload_all_bytes(page, bytes, front);
        lemma_ids_of_longer(pids);
        assert forall|k: int| 0 <= k < front.len() implies page.table.contains_key(
            #[trigger] front[k],
        ) by {
            assert(front[k] == pids[k]);
        }
        lemma_unload_all(page, bytes, held, front);
        assert(page.table.contains_key(pids[pids.len() - 1]));
        assert(before.table.contains_key(last));
        assert(before.slot_of(last) == page.slot_of(last));
        assert(is_slot_offset(page.table[last] as int));
        if any_held(held, before.slot_of(last), PROCESS_SIZE as int) {
            let i = choose|i: int|
                before.slot_of(last) <= i < before.slot_of(last) + PROCESS_SIZE && 0 <= i
                    < held.len() && #[trigger] held[i];
            assert(page.start <= i < page.start + PAGE_SIZE && held[i]);
        }
        lemma_unload_keeps_wf(before, held, last);
        let after = unload_all(page, pids);
        let after_bytes = unload_all_bytes(page, bytes, pids);
        assert(after.table =~= page.table.remove_keys(pids.to_set()));
        assert forall|k: int| 0 <= k < pids.len() implies (#[trigger] unload_all(
            page,
            pids.take(k),
        )).unload_refusal(held, pids[k]) is None by {
            if k < front.len() {
                assert(pids.take(k) =~= front.take(k));
                assert(pids[k] == front[k]);
            } else {
                assert(pids.take(k) =~= front);
            }
        }
        assert forall|i: int| 0 <= i < bytes.len() implies #[trigger] after_bytes[i] == (if exists|
            k: int,
        |
            0 <= k < pids.len() && page.slot_of(#[trigger] pids[k]) <= i < page.slot_of(pids[k])
                + PROCESS_SIZE {
            0u8
        } else {
            bytes[i]
        }) by {
            let in_front = exists|k: int|
                0 <= k < front.len() && page.slot_of(#[trigger] front[k]) <= i < page.slot_of(
                    front[k],
                ) + PROCESS_SIZE;
            let in_last = page.slot_of(last) <= i < page.slot_of(last) + PROCESS_SIZE;
            let in_all = exists|k: int|
                0 <= k < pids.len() && page.slot_of(#[trigger] pids[k]) <= i < page.slot_of(
                    pids[k],
                ) + PROCESS_SIZE;
            if in_front {
                let k = choose|k: int|
                    0 <= k < front.len() && page.slot_of(#[trigger] front[k]) <= i < page.slot_of(
                        front[k],
                    ) + PROCESS_SIZE;
                assert(pids[k] == front[k]);
                assert(in_all);
            }
            if in_last {
                assert(pids[pids.len() - 1] == last);
                assert(in_all);
            }
            if in_all {
                let k = choose|k: int|
                    0 <= k < pids.len() && page.slot_of(#[trigger] pids[k]) <= i < page.slot_of(
                        pids[k],
                    ) + PROCESS_SIZE;
                if k < front.len() {
                    assert(front[k] == pids[k]);
                    assert(in_front);
                } else {
                    assert(in_last);
                }
            }
            assert(before_bytes[i] == (if in_front {
                0u8
            } else {
                bytes[i]
            }));
        }
        if pids.to_set() == page.table.dom() {
            pids.unique_seq_to_set();
            assert(after.table =~= Map::<u16, usize>::empty());
        }
    }
}

} // verus!
