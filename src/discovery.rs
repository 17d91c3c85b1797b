//! Module discovery: which files are probed, and how the probes' outcomes
//! fill the registry.
//!
//! The host lists the discovery directory, probes each file that
//! `has_extension` selects (open it, resolve the five entry points, ask the
//! module its name and release that buffer) and hands the outcomes to
//! `discover`, in the order the files were listed.
use vstd::prelude::*;
use vstd::string::StringSliceAdditionalSpecFns;
use crate::registry::{key_of, ModuleRegistry};
use crate::text::{decode_lossy, lossy_of};

verus! {

/// The byte that separates a file's stem from its extension.
pub const DOT: u8 = 0x2e;

/// The last separator of a file name stands at `d`, after its first byte.
pub open spec fn is_extension_dot(name: Seq<u8>, d: int) -> bool {
    &&& 0 < d < name.len()
    &&& name[d] == DOT
    &&& forall|j: int| d < j < name.len() ==> name[j] != DOT
}

/// The extension of a file name: what follows its last separator, unless
/// that separator starts the name or the name is `..`.
pub open spec fn extension_of(name: Seq<u8>) -> Option<Seq<u8>> {
    if name == seq![DOT, DOT] {
        None
    } else if exists|d: int| is_extension_dot(name, d) {
        let d = choose|d: int| is_extension_dot(name, d);
        Some(name.subrange(d + 1, name.len() as int))
    } else {
        None
    }
}

/// The position after the last separator in `b`, or 0 if there is none.
fn after_last_dot(b: &[u8]) -> (r: usize)
    ensures
        r <= b@.len(),
        forall|j: int| r <= j < b@.len() ==> b@[j] != DOT,
        r > 0 ==> b@[r - 1] == DOT,
{
    let mut i: usize = b.len();
    while i > 0
        invariant
            i <= b@.len(),
            forall|j: int| i <= j < b@.len() ==> b@[j] != DOT,
        decreases i,
    {
        if b[i - 1] == DOT {
            return i;
        }
        i = i - 1;
    }
    0
}

/// Whether `file_name` has the extension `ext`, as a path's extension is
/// read: the bytes after the last separator, where that separator does not
/// start the name.
pub fn has_extension(file_name: &str, ext: &str) -> (r: bool)
    ensures
        r == (extension_of(file_name.spec_bytes()) == Some(ext.spec_bytes())),
{
    let b = file_name.as_bytes();
    let e = ext.as_bytes();
    let ghost name = b@;
    if b.len() == 2 && b[0] == DOT && b[1] == DOT {
        assert(name =~= seq![DOT, DOT]);
        return false;
    }
    assert(name != seq![DOT, DOT]);
    let start = after_last_dot(b);
    if start <= 1 {
        assert(!exists|d: int| is_extension_dot(name, d)) by {
            if exists|d: int| is_extension_dot(name, d) {
                let d = choose|d: int| is_extension_dot(name, d);
                assert(name[d] == DOT);
            }
        }
        return false;
    }
    proof {
        let d = start - 1;
        assert(is_extension_dot(name, d));
        let c = choose|c: int| is_extension_dot(name, c);
        assert(c == d) by {
            if c < d {
                assert(name[d] != DOT);
            } else if c > d {
                assert(name[c] != DOT);
            }
        }
        assert(extension_of(name) == Some(name.subrange(start as int, name.len() as int)));
    }
    let ghost tail = name.subrange(start as int, name.len() as int);
    if b.len() - start != e.len() {
        assert(tail.len() != e@.len());
        return false;
    }
    let n = b.len();
    let mut k: usize = 0;
    while k < e.len()
        invariant
            n == name.len(),
            b@ == name,
            name == file_name.spec_bytes(),
            e@ == ext.spec_bytes(),
            1 < start <= name.len(),
            tail == name.subrange(start as int, name.len() as int),
            extension_of(name) == Some(tail),
            start + e@.len() == name.len(),
            k <= e@.len(),
            forall|j: int| 0 <= j < k ==> name[start + j] == e@[j],
        decreases e@.len() - k,
    {
        if b[start + k] != e[k] {
            assert(tail[k as int] != e@[k as int]);
            return false;
        }
        k = k + 1;
    }
    assert(tail =~= e@);
    true
}

/// The outcome of probing one file.
pub enum ProbeResult<H> {
    /// The file is a module: the name it declares, as its `identify` buffer
    /// held it, and its validated handle.
    Loaded { name: Vec<u8>, handle: H },
    /// The file could not be opened or lacks an entry point: it is skipped.
    Rejected,
}

/// How many probed files were registered and how many were skipped.
pub struct DiscoveryReport {
    pub loaded: usize,
    pub skipped: usize,
}

/// The key a probe registers under, if it loaded.
pub open spec fn probe_key<H>(p: ProbeResult<H>) -> Option<Seq<char>> {
    match p {
        ProbeResult::Loaded { name, handle } => Some(key_of(lossy_of(name@))),
        ProbeResult::Rejected => None,
    }
}

/// The registry map after registering the loaded probes, in order.
pub open spec fn apply_probes<H>(m: Map<Seq<char>, H>, probes: Seq<ProbeResult<H>>) -> Map<
    Seq<char>,
    H,
>
    decreases probes.len(),
{
    if probes.len() == 0 {
        m
    } else {
        let before = apply_probes(m, probes.drop_last());
        match probes.last() {
            ProbeResult::Loaded { name, handle } => before.insert(key_of(lossy_of(name@)), handle),
            ProbeResult::Rejected => before,
        }
    }
}

/// The number of probes that loaded.
pub open spec fn count_loaded<H>(probes: Seq<ProbeResult<H>>) -> nat
    decreases probes.len(),
{
    if probes.len() == 0 {
        0
    } else {
        count_loaded(probes.drop_last()) + if probes.last() is Loaded {
            1nat
        } else {
            0nat
        }
    }
}

/// Registers every loaded probe under the name its module declared, in
/// order, so that a later module replaces an earlier one of the same name,
/// and counts the probes registered and skipped.
pub fn discover<H: Copy>(registry: &mut ModuleRegistry<H>, probes: Vec<ProbeResult<H>>) -> (r:
    DiscoveryReport)
    requires
        old(registry).wf(),
    ensures
        final(registry).wf(),
        final(registry)@ == apply_probes(old(registry)@, probes@),
        r.loaded == count_loaded(probes@),
        r.skipped == probes@.len() - count_loaded(probes@),
{
    let ghost start = registry@;
    let mut loaded: usize = 0;
    let mut skipped: usize = 0;
    let mut i: usize = 0;
    while i < probes.len()
        invariant
            registry.wf(),
            i <= probes@.len(),
            registry@ == apply_probes(start, probes@.subrange(0, i as int)),
            loaded == count_loaded(probes@.subrange(0, i as int)),
            loaded + skipped == i,
        decreases probes@.len() - i,
    {
        proof {
            let next = probes@.subrange(0, i + 1);
            assert(next.drop_last() =~= probes@.subrange(0, i as int));
            assert(next.last() == probes@[i as int]);
        }
        match &probes[i] {
            ProbeResult::Loaded { name, handle } => {
                let text = decode_lossy(name.as_slice());
                registry.register(text.as_str(), *handle);
                loaded = loaded + 1;
            },
            ProbeResult::Rejected => {
                skipped = skipped + 1;
            },
        }
        i = i + 1;
    }
    proof {
        assert(probes@.subrange(0, probes@.len() as int) =~= probes@);
    }
    DiscoveryReport { loaded, skipped }
}

proof fn lemma_apply_probes_keys<H>(probes: Seq<ProbeResult<H>>, k: Seq<char>)
    requires
        apply_probes(Map::<Seq<char>, H>::empty(), probes).contains_key(k),
    ensures
        exists|i: int| 0 <= i < probes.len() && probe_key(probes[i]) == Some(k),
    decreases probes.len(),
{
    let rest = probes.drop_last();
    if probes.last() is Loaded && probe_key(probes.last()) == Some(k) {
        assert(probe_key(probes[probes.len() - 1]) == Some(k));
    } else {
        lemma_apply_probes_keys(rest, k);
        let i = choose|i: int| 0 <= i < rest.len() && probe_key(rest[i]) == Some(k);
        assert(probes[i] == rest[i]);
    }
}

/// Discovery over any list of probed files, valid and invalid in any order,
/// whose valid modules declare distinct names (compared without case),
/// registers exactly as many modules as there are valid files into an empty
/// registry; `discover` counts the rest as skipped.
pub proof fn lemma_discovery_registers_each_valid_file<H>(probes: Seq<ProbeResult<H>>)
    requires
        forall|i: int, j: int|
            0 <= i < probes.len() && 0 <= j < probes.len() && i != j && probe_key(probes[i]) is Some
                ==> #[trigger] probe_key(probes[i]) != #[trigger] probe_key(probes[j]),
    ensures
        apply_probes(Map::<Seq<char>, H>::empty(), probes).dom().finite(),
        apply_probes(Map::<Seq<char>, H>::empty(), probes).len() == count_loaded(probes),
    decreases probes.len(),
{
    if probes.len() > 0 {
        let rest = probes.drop_last();
        assert forall|i: int, j: int|
            0 <= i < rest.len() && 0 <= j < rest.len() && i != j && probe_key(rest[i]) is Some
                implies #[trigger] probe_key(rest[i]) != #[trigger] probe_key(rest[j]) by {
            assert(rest[i] == probes[i] && rest[j] == probes[j]);
        }
        lemma_discovery_registers_each_valid_file(rest);
        let before = apply_probes(Map::<Seq<char>, H>::empty(), rest);
        match probes.last() {
            ProbeResult::Loaded { name, handle } => {
                let k = key_of(lossy_of(name@));
                assert(probe_key(probes[probes.len() - 1]) == Some(k));
                if before.contains_key(k) {
                    lemma_apply_probes_keys(rest, k);
                    let i = choose|i: int| 0 <= i < rest.len() && probe_key(rest[i]) == Some(k);
                    assert(probes[i] == rest[i]);
                    assert(probe_key(probes[i]) != probe_key(probes[probes.len() - 1]));
                }
            },
            ProbeResult::Rejected => {},
        }
    }
}

/// Two valid files that declare the same name, compared without case, leave
/// exactly one registry entry under that name: the handle of the file
/// probed last.
pub proof fn lemma_duplicate_name_last_wins<H>(first: ProbeResult<H>, second: ProbeResult<H>)
    requires
        first is Loaded,
        second is Loaded,
        probe_key(first) == probe_key(second),
    ensures
        ({
            let m = apply_probes(Map::<Seq<char>, H>::empty(), seq![first, second]);
            &&& m.dom().finite()
            &&& m.len() == 1
            &&& m.contains_key(probe_key(second)->0)
            &&& m[probe_key(second)->0] == second->Loaded_handle
        }),
{
    let probes = seq![first, second];
    let e = Map::<Seq<char>, H>::empty();
    assert(probes.drop_last() =~= seq![first]);
    assert(seq![first].drop_last() =~= Seq::<ProbeResult<H>>::empty());
    let k = probe_key(second)->0;
    assert(apply_probes(e, Seq::<ProbeResult<H>>::empty()) == e);
    assert(apply_probes(e, seq![first]) == e.insert(k, first->Loaded_handle));
    let m = apply_probes(e, probes);
    assert(m == apply_probes(e, seq![first]).insert(k, second->Loaded_handle));
    assert(m =~= Map::<Seq<char>, H>::empty().insert(k, second->Loaded_handle));
    assert(m.dom() =~= set![k]);
}

} // verus!
