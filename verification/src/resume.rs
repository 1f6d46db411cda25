//! Reading a checkpoint back: the document [`checkpoint_document`] builds
//! is read by the manifest reader as the manifest that resumes the run.
//!
//! [`checkpoint_document`]: crate::checkpoint::checkpoint_document

use vstd::prelude::*;

use crate::checkpoint::{
    at, checkpoint_is, has_keys, is_num, is_str, lemma_no_unknown, lemma_none_missing,
    lemma_state_document_reads_back,
};
use crate::conformance::{Event, Manifest};
use crate::json::{keys_of, lookup, Json};
use crate::manifest::{at_pc_upto, file_at, manifest_spec, segment_spec, ManifestModel};
use crate::state::CpuState;

verus! {

/// The first member named `key` is member `k` when no earlier member has
/// that name.
proof fn lemma_lookup_at(e: Seq<(String, Json)>, key: Seq<char>, k: int)
    requires
        0 <= k < e.len(),
        e[k].0@ == key,
        forall|j: int| 0 <= j < k ==> e[j].0@ != key,
    ensures
        lookup(e, key) == Some(e[k].1),
    decreases k,
{
    if k > 0 {
        lemma_lookup_at(e.drop_first(), key, k - 1);
    }
}

/// An object with no member named `key` has none to look up.
proof fn lemma_lookup_absent(e: Seq<(String, Json)>, key: Seq<char>)
    requires
        forall|j: int| 0 <= j < e.len() ==> e[j].0@ != key,
    ensures
        lookup(e, key) is None,
    decreases e.len(),
{
    if e.len() > 0 {
        lemma_lookup_absent(e.drop_first(), key);
    }
}

/// The stop addresses of a checkpoint read back as the manifest's.
proof fn lemma_at_pc_reads_back(items: Seq<Json>, pcs: Seq<u16>, n: int)
    requires
        0 <= n <= items.len(),
        items.len() == pcs.len(),
        forall|k: int| 0 <= k < pcs.len() ==> #[trigger] is_num(items[k], pcs[k] as nat),
    ensures
        at_pc_upto(items, n) == Ok::<Seq<u16>, Seq<char>>(pcs.take(n)),
    decreases n,
{
    if n > 0 {
        lemma_at_pc_reads_back(items, pcs, n - 1);
        assert(is_num(items[n - 1], pcs[n - 1] as nat));
        assert(((pcs[n - 1] as u64) as u16) == pcs[n - 1]);
        assert(pcs.take(n - 1).push(pcs[n - 1]) =~= pcs.take(n));
    } else {
        assert(pcs.take(0) =~= Seq::<u16>::empty());
    }
}

/// The memory segment of a checkpoint reads back as the whole memory file
/// at address 0.
#[verifier::rlimit(60)]
proof fn lemma_checkpoint_segment(item: Json, file: Seq<u8>, stem: Seq<char>)
    requires
        has_keys(item, seq!["address"@, "file"@]),
        is_num(at(item, 0), 0),
        is_str(at(item, 1), stem + ".mem"@),
        file.len() == 0x10000,
    ensures
        segment_spec(item, 0, Some(Ok::<Seq<u8>, Seq<char>>(file))) == Ok::<(u16, Seq<u8>), Seq<char>>((0u16, file)),
{
    reveal_strlit("address");
    reveal_strlit("file");
    reveal_strlit("data");
    reveal_strlit("offset");
    reveal_strlit("length");
    let e = item->Object_0@;
    assert(keys_of(e).len() == e.len());
    assert(e[0].0@ == keys_of(e)[0] && e[1].0@ == keys_of(e)[1]);
    assert("file"@[0] != "data"@[0]);
    lemma_lookup_at(e, "address"@, 0);
    lemma_lookup_at(e, "file"@, 1);
    lemma_lookup_absent(e, "data"@);
    lemma_lookup_absent(e, "offset"@);
    lemma_lookup_absent(e, "length"@);
    assert forall|i: int| 0 <= i < keys_of(e).len() implies crate::manifest::segment_keys().contains(#[trigger] keys_of(e)[i]) by {
        if i == 0 {
            assert(crate::manifest::segment_keys()[0] == keys_of(e)[0]);
        } else {
            assert(crate::manifest::segment_keys()[2] == keys_of(e)[1]);
        }
    }
    lemma_no_unknown(e, crate::manifest::segment_keys());
    assert forall|i: int| 0 <= i < 1 implies keys_of(e).contains(#[trigger] seq!["address"@][i]) by {
        assert(keys_of(e)[0] == seq!["address"@][0]);
    }
    lemma_none_missing(e, seq!["address"@]);
    assert(file.subrange(0, 0x10000) =~= file);
}

/// The stop rule of a checkpoint reads back as the manifest's, with
/// `max_steps` of `segment_steps`.
#[verifier::rlimit(60)]
proof fn lemma_checkpoint_stop(doc: Json, manifest: Manifest, state: CpuState, stem: Seq<char>, segment_steps: u64)
    requires
        checkpoint_is(doc, manifest, state, stem, segment_steps),
        segment_steps > 0,
    ensures
        crate::manifest::stop_spec(doc->Object_0@) == Ok::<(u64, bool, Seq<u16>), Seq<char>>(
            (segment_steps, manifest.stop.on_halt, manifest.stop.at_pc@),
        ),
{
    reveal_strlit("at_pc");
    reveal_strlit("max_steps");
    reveal_strlit("on_halt");
    reveal_strlit("stop");
    let e = doc->Object_0@;
    assert(keys_of(e).len() == e.len());
    assert(e[6].0@ == keys_of(e)[6]);
    lemma_root_lookup(e, "stop"@, 6);
    // The stop rule.
    let st = at(doc, 6)->Object_0@;
    assert(keys_of(st).len() == st.len());
    assert(st[0].0@ == keys_of(st)[0] && st[1].0@ == keys_of(st)[1] && st[2].0@ == keys_of(st)[2]);
    lemma_lookup_at(st, "at_pc"@, 0);
    lemma_lookup_at(st, "max_steps"@, 1);
    lemma_lookup_at(st, "on_halt"@, 2);
    assert forall|i: int| 0 <= i < keys_of(st).len() implies crate::manifest::stop_keys().contains(#[trigger] keys_of(st)[i]) by {
        let sk = crate::manifest::stop_keys();
        if i == 0 {
            assert(sk[2] == keys_of(st)[0]);
        } else if i == 1 {
            assert(sk[0] == keys_of(st)[1]);
        } else {
            assert(sk[1] == keys_of(st)[2]);
        }
    }
    lemma_no_unknown(st, crate::manifest::stop_keys());
    assert forall|i: int| 0 <= i < 1 implies keys_of(st).contains(#[trigger] seq!["max_steps"@][i]) by {
        assert(keys_of(st)[1] == seq!["max_steps"@][0]);
    }
    lemma_none_missing(st, seq!["max_steps"@]);
    let pcs = at(at(doc, 6), 0)->Array_0@;
    assert forall|k: int| 0 <= k < manifest.stop.at_pc@.len() implies #[trigger] is_num(pcs[k], manifest.stop.at_pc@[k] as nat) by {
        assert(is_num(at(at(at(doc, 6), 0), k), manifest.stop.at_pc@[k] as nat));
    }
    lemma_at_pc_reads_back(pcs, manifest.stop.at_pc@, pcs.len() as int);
    assert(manifest.stop.at_pc@.take(pcs.len() as int) =~= manifest.stop.at_pc@);
}

/// The members of a checkpoint are exactly the manifest's keys.
proof fn lemma_checkpoint_root_keys(e: Seq<(String, Json)>)
    requires
        keys_of(e) == seq!["events"@, "host"@, "initial"@, "memory"@, "name"@, "port_read_value"@, "stop"@, "version"@],
    ensures
        crate::manifest::allowed_spec(e, "manifest"@, crate::manifest::manifest_keys(), crate::manifest::manifest_required()) is Ok,
{
    assert(keys_of(e).len() == e.len());
    // The members are exactly the manifest's keys.
    assert forall|i: int| 0 <= i < keys_of(e).len() implies crate::manifest::manifest_keys().contains(#[trigger] keys_of(e)[i]) by {
        let mk = crate::manifest::manifest_keys();
        if i == 0 {
            assert(mk[6] == keys_of(e)[0]);
        } else if i == 1 {
            assert(mk[2] == keys_of(e)[1]);
        } else if i == 2 {
            assert(mk[5] == keys_of(e)[2]);
        } else if i == 3 {
            assert(mk[4] == keys_of(e)[3]);
        } else if i == 4 {
            assert(mk[1] == keys_of(e)[4]);
        } else if i == 5 {
            assert(mk[3] == keys_of(e)[5]);
        } else if i == 6 {
            assert(mk[7] == keys_of(e)[6]);
        } else {
            assert(mk[0] == keys_of(e)[7]);
        }
    }
    lemma_no_unknown(e, crate::manifest::manifest_keys());
    assert forall|i: int| 0 <= i < 4 implies keys_of(e).contains(#[trigger] crate::manifest::manifest_required()[i]) by {
        let r = crate::manifest::manifest_required();
        if i == 0 {
            assert(keys_of(e)[3] == r[0]);
        } else if i == 1 {
            assert(keys_of(e)[4] == r[1]);
        } else if i == 2 {
            assert(keys_of(e)[6] == r[2]);
        } else {
            assert(keys_of(e)[7] == r[3]);
        }
    }
    lemma_none_missing(e, crate::manifest::manifest_required());
}

/// Looking up one of a checkpoint's member names finds member `k`.
proof fn lemma_root_lookup(e: Seq<(String, Json)>, key: Seq<char>, k: int)
    requires
        keys_of(e) == seq!["events"@, "host"@, "initial"@, "memory"@, "name"@, "port_read_value"@, "stop"@, "version"@],
        0 <= k < 8,
        keys_of(e)[k] == key,
    ensures
        lookup(e, key) == Some(e[k].1),
{
    reveal_strlit("events");
    reveal_strlit("host");
    reveal_strlit("initial");
    reveal_strlit("memory");
    reveal_strlit("name");
    reveal_strlit("port_read_value");
    reveal_strlit("stop");
    reveal_strlit("version");
    assert(keys_of(e).len() == e.len());
    assert forall|j: int| 0 <= j < 8 implies #[trigger] e[j].0@ == keys_of(e)[j] by {}
    assert("events"@[0] != "memory"@[0]);
    assert("host"@[0] != "name"@[0] && "host"@[0] != "stop"@[0] && "name"@[0] != "stop"@[0]);
    assert("initial"@[0] != "version"@[0]);
    lemma_lookup_at(e, key, k);
}

/// A checkpoint document reads back as the manifest it resumes: loading
/// it, with its memory file holding the 64 KiB the checkpoint wrote, gives
/// the checkpoint's name, the manifest's host, port value and stop rule
/// with `max_steps` of `segment_steps`, that memory as one segment at
/// address 0, the captured state as the initial state, and no events. It
/// holds for every state that `validate` accepts and every positive
/// `segment_steps`.
#[verifier::rlimit(100)]
pub proof fn lemma_checkpoint_reads_back(
    doc: Json,
    manifest: Manifest,
    state: CpuState,
    stem: Seq<char>,
    segment_steps: u64,
    contents: Vec<u8>,
)
    requires
        checkpoint_is(doc, manifest, state, stem, segment_steps),
        state.im <= 2,
        state.ei_delay <= 1,
        segment_steps > 0,
        stem.len() > 0,
        contents@.len() == 0x10000,
    ensures
        manifest_spec(doc, seq![Some(Ok::<Vec<u8>, String>(contents))]) == Ok::<ManifestModel, Seq<char>>(
            ManifestModel {
                name: stem,
                host: manifest.host,
                port_read_value: manifest.port_read_value,
                memory: seq![(0u16, contents@)],
                initial: state,
                events: Seq::empty(),
                max_steps: segment_steps,
                on_halt: manifest.stop.on_halt,
                at_pc: manifest.stop.at_pc@,
            },
        ),
{
    reveal_strlit("events");
    reveal_strlit("host");
    reveal_strlit("initial");
    reveal_strlit("memory");
    reveal_strlit("name");
    reveal_strlit("port_read_value");
    reveal_strlit("stop");
    reveal_strlit("version");
    reveal_strlit("at_pc");
    reveal_strlit("max_steps");
    reveal_strlit("on_halt");
    reveal_strlit("flat");
    reveal_strlit("cpm-minimal");
    let files = seq![Some(Ok::<Vec<u8>, String>(contents))];
    let e = doc->Object_0@;
    assert(keys_of(e).len() == e.len());
    assert(e[0].0@ == keys_of(e)[0] && e[1].0@ == keys_of(e)[1] && e[2].0@ == keys_of(e)[2] && e[3].0@
        == keys_of(e)[3] && e[4].0@ == keys_of(e)[4] && e[5].0@ == keys_of(e)[5] && e[7].0@ == keys_of(e)[7]);
    lemma_root_lookup(e, "events"@, 0);
    lemma_root_lookup(e, "host"@, 1);
    lemma_root_lookup(e, "initial"@, 2);
    lemma_root_lookup(e, "memory"@, 3);
    lemma_root_lookup(e, "name"@, 4);
    lemma_root_lookup(e, "port_read_value"@, 5);
    lemma_root_lookup(e, "version"@, 7);
    lemma_checkpoint_root_keys(e);
    // Memory: the one file segment.
    let mem = at(doc, 3);
    assert(file_at(files, 0) == Some(Ok::<Seq<u8>, Seq<char>>(contents@)));
    lemma_checkpoint_segment(at(mem, 0), contents@, stem);
    assert(Seq::<(u16, Seq<u8>)>::empty().push((0u16, contents@)) =~= seq![(0u16, contents@)]);
    assert(crate::manifest::segments_upto(mem->Array_0@, files, 0) == Ok::<Seq<(u16, Seq<u8>)>, Seq<char>>(
        Seq::empty(),
    ));
    assert(crate::manifest::segments_upto(mem->Array_0@, files, 1) == Ok::<Seq<(u16, Seq<u8>)>, Seq<char>>(
        seq![(0u16, contents@)],
    ));
    // The initial state.
    lemma_state_document_reads_back(at(doc, 2), state, "initial"@, true);
    lemma_checkpoint_stop(doc, manifest, state, stem, segment_steps);
    // No events.
    assert(crate::manifest::events_upto(at(doc, 0)->Array_0@, 0) == Ok::<Seq<Event>, Seq<char>>(Seq::empty()));
    assert(crate::manifest::events_ordered(Seq::<Event>::empty()));
    assert(crate::manifest::version_spec(e) == Ok::<(), Seq<char>>(()));
    assert(crate::manifest::name_spec(e) == Ok::<Seq<char>, Seq<char>>(stem));
    assert(crate::manifest::memory_spec(e, files) == Ok::<Seq<(u16, Seq<u8>)>, Seq<char>>(seq![(0u16, contents@)]));
    assert(crate::manifest::initial_spec(e) == Ok::<CpuState, Seq<char>>(state));
    assert(crate::manifest::events_spec(e) == Ok::<Seq<Event>, Seq<char>>(Seq::empty()));
    assert(crate::manifest::str_of(at(doc, 1)) == Some(crate::checkpoint::host_name(manifest.host)));
    assert("cpm-minimal"@.len() == 11 && "flat"@.len() == 4);
    assert(crate::manifest::host_spec(e) == Ok::<crate::conformance::HostProfile, Seq<char>>(manifest.host));
    assert(crate::manifest::port_spec(e) == Ok::<u8, Seq<char>>(manifest.port_read_value));
}

} // verus!
