//! Boot-method refinement: a Linux kernel assumed to be an EFI stub is
//! checked by peeking its file; a valid EFI application stays an EFI stub
//! (firmware loads it, Secure-Boot friendly), anything else becomes a
//! direct kernel boot. An unreadable kernel keeps the assumption.
use vstd::prelude::*;
use crate::ports::{FileStore, stored_at};
use crate::graph::kinds::BootMethod;
use crate::discovery::{RawEntry, RawEntryV, raws_view};
use crate::discovery::pe::{is_efi_application, efi_application};
use crate::discovery::bls::read_of;

verus! {

/// An entry after refinement, given what reading its kernel gave.
pub open spec fn refined(e: RawEntryV, rd: Option<Seq<u8>>) -> RawEntryV {
    if e.method == BootMethod::LinuxEfiStub && e.kernel is Some && rd is Some && !is_efi_application(rd->0) {
        RawEntryV { method: BootMethod::LinuxDirect, ..e }
    } else {
        e
    }
}

/// `reads[i]` is what reading the kernel of `raw[i]` gave (nothing for an
/// entry that was not an EFI-stub kernel, or whose read failed).
pub open spec fn kernel_reads(files: Map<Seq<char>, Seq<u8>>, raw: Seq<RawEntryV>, reads: Seq<Option<Seq<u8>>>) -> bool {
    &&& reads.len() == raw.len()
    &&& forall|i: int|
        0 <= i < raw.len() ==> match (#[trigger] raw[i]).kernel {
            Some(k) => read_of(files, k, reads[i]),
            None => reads[i] is None,
        }
}

/// What a volume holding `files` has at the entry's kernel path, if any.
pub open spec fn kernel_of(files: Map<Seq<char>, Seq<u8>>, e: RawEntryV) -> Option<Seq<u8>> {
    match e.kernel {
        Some(k) => stored_at(files, k),
        None => None,
    }
}

/// Adjust the boot method of each Linux EFI-stub entry by inspecting its
/// kernel file (on a store that never fails, exactly the file it holds).
pub fn refine_methods<F: FileStore>(raw: Vec<RawEntry>, fs: &F) -> (r: Vec<RawEntry>)
    ensures
        r@.len() == raw@.len(),
        fs.modelled() ==> (exists|reads: Seq<Option<Seq<u8>>>|
                kernel_reads(fs.files(), raws_view(raw@), reads) && forall|i: int|
                    0 <= i < raw@.len() ==> (#[trigger] r@[i])@ == refined(raw@[i]@, reads[i])),
        fs.modelled() ==> (fs.never_fails() ==> forall|i: int|
                0 <= i < raw@.len() ==> (#[trigger] r@[i])@ == refined(raw@[i]@, kernel_of(fs.files(), raw@[i]@))),
{
    let mut raw = raw;
    let ghost orig = raw@;
    let ghost mut reads: Seq<Option<Seq<u8>>> = seq![];
    let mut i: usize = 0;
    while i < raw.len()
        invariant
            i <= raw@.len(),
            raw@.len() == orig.len(),
            reads.len() == i,
            forall|k: int| i <= k < raw@.len() ==> raw@[k] == orig[k],
            fs.modelled() ==> forall|k: int|
                0 <= k < i ==> match (#[trigger] orig[k])@.kernel {
                    Some(kn) => read_of(fs.files(), kn, reads[k]),
                    None => reads[k] is None,
                },
            forall|k: int| 0 <= k < i ==> (#[trigger] raw@[k])@ == refined(orig[k]@, reads[k]),
            fs.modelled() && fs.never_fails() ==> forall|k: int|
                0 <= k < i ==> reads[k] == kernel_of(fs.files(), (#[trigger] orig[k])@),
        decreases raw@.len() - i,
    {
        let ghost rd: Option<Seq<u8>> = None;
        let mut e = raw.remove(i);
        let ghost e0 = e;
        if e.method == BootMethod::LinuxEfiStub {
            match &e.kernel {
                Some(k) => {
                    match fs.read(k.as_str()) {
                        Ok(bytes) => {
                            proof {
                                rd = Some(bytes@);
                            }
                            if !efi_application(bytes.as_slice()) {
                                e.method = BootMethod::LinuxDirect;
                            }
                        },
                        Err(_) => {},
                    }
                },
                None => {},
            }
        } else {
            proof {
                rd = match e0.kernel {
                    Some(k) => if fs.files().contains_key(k@) {
                        Some(fs.files()[k@])
                    } else {
                        None
                    },
                    None => None,
                };
            }
        }
        assert(e@ == refined(e0@, rd));
        raw.insert(i, e);
        proof {
            reads = reads.push(rd);
        }
        i = i + 1;
    }
    proof {
        if fs.modelled() {
            assert forall|k: int| 0 <= k < orig.len() implies match (#[trigger] raws_view(orig)[k]).kernel {
                Some(kn) => read_of(fs.files(), kn, reads[k]),
                None => reads[k] is None,
            } by {
                assert(raws_view(orig)[k] == orig[k]@);
            }
            assert(kernel_reads(fs.files(), raws_view(orig), reads));
            assert(forall|k: int| 0 <= k < orig.len() ==> (#[trigger] raw@[k])@ == refined(orig[k]@, reads[k]));
        }
    }
    raw
}

} // verus!
