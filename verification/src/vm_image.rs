//! Virtual-machine disk images: base images and the snapshots cut from
//! them. A snapshot names its base; a base cannot go away while a snapshot
//! still references it.

use vstd::prelude::*;

use crate::errors::{CoreError, ErrorKind};

verus! {

/// Whether an image stands on its own or on a base image.
#[derive(Clone, Copy, PartialEq, Eq, Structural, Debug)]
pub enum VmImageKind {
    Base,
    Snapshot,
}

/// One disk image.
pub struct VmImageRow {
    pub name: String,
    pub kind: VmImageKind,
    /// The base a snapshot was cut from.
    pub parent: Option<String>,
    pub path: String,
    pub format: String,
    pub size: u64,
}

/// The image store.
pub struct VmImageTable {
    pub rows: Vec<VmImageRow>,
}

/// Whether some snapshot references the named image as its base.
pub open spec fn has_snapshot_of(rows: Seq<VmImageRow>, name: Seq<char>) -> bool {
    exists|i: int| {
        &&& 0 <= i < rows.len()
        &&& (#[trigger] rows[i]).kind == VmImageKind::Snapshot
        &&& rows[i].parent is Some
        &&& rows[i].parent->0@ == name
    }
}

/// Whether the table holds an image of the name.
pub open spec fn has_image(rows: Seq<VmImageRow>, name: Seq<char>) -> bool {
    exists|i: int| 0 <= i < rows.len() && (#[trigger] rows[i]).name@ == name
}

impl VmImageTable {
    /// An empty store.
    pub fn new() -> (r: VmImageTable)
        ensures
            r.rows@.len() == 0,
    {
        VmImageTable { rows: Vec::new() }
    }

    /// Adds an image; a name already in use is a conflict.
    #[verifier::loop_isolation(false)]
    pub fn create_image(&mut self, image: VmImageRow) -> (r: Result<(), CoreError>)
        ensures
            match r {
                Ok(_) => {
                    &&& !has_image(old(self).rows@, image.name@)
                    &&& final(self).rows@.len() == old(self).rows@.len() + 1
                    &&& final(self).rows@.drop_last() == old(self).rows@
                    &&& final(self).rows@.last() == image
                }
                Err(e) => {
                    &&& e.kind == ErrorKind::Conflict
                    &&& has_image(old(self).rows@, image.name@)
                    &&& *final(self) == *old(self)
                },
            },
    {
        let mut i: usize = 0;
        while i < self.rows.len()
            invariant
                i <= self.rows@.len(),
                forall|k: int| 0 <= k < i ==> (#[trigger] self.rows@[k]).name@ != image.name@,
            decreases self.rows@.len() - i,
        {
            if self.rows[i].name.eq(&image.name) {
                proof {
                    assert(self.rows@[i as int].name@ == image.name@);
                }
                return Err(CoreError::conflict(String::from_str("image already exists")));
            }
            i += 1;
        }
        let ghost pre = self.rows@;
        self.rows.push(image);
        proof {
            assert(self.rows@.drop_last() =~= pre);
        }
        Ok(())
    }

    /// Removes an image by name. A base that snapshots still reference is
    /// kept and the delete refused; an unknown name is NotFound.
    #[verifier::loop_isolation(false)]
    pub fn delete_image(&mut self, name: &String) -> (r: Result<(), CoreError>)
        ensures
            match r {
                Ok(_) => {
                    &&& has_image(old(self).rows@, name@)
                    &&& !has_snapshot_of(old(self).rows@, name@)
                    &&& final(self).rows@ == without_image(old(self).rows@, name@)
                }
                Err(e) => {
                    &&& *final(self) == *old(self)
                    &&& (e.kind == ErrorKind::Conflict ==> has_snapshot_of(
                        old(self).rows@,
                        name@,
                    ))
                    &&& (e.kind == ErrorKind::NotFound ==> !has_image(old(self).rows@, name@))
                    &&& (e.kind == ErrorKind::Conflict || e.kind == ErrorKind::NotFound)
                },
            },
    {
        let mut found = false;
        let mut i: usize = 0;
        while i < self.rows.len()
            invariant
                i <= self.rows@.len(),
                found == exists|k: int| 0 <= k < i && (#[trigger] self.rows@[k]).name@ == name@,
                forall|k: int| 0 <= k < i ==> !((#[trigger] self.rows@[k]).kind
                    == VmImageKind::Snapshot && self.rows@[k].parent is Some && self.rows@[
                    k
                ].parent->0@ == name@),
            decreases self.rows@.len() - i,
        {
            let row = &self.rows[i];
            let snapshot = matches!(row.kind, VmImageKind::Snapshot);
            let references = match &row.parent {
                Some(p) => p.eq(name),
                None => false,
            };
            if snapshot && references {
                return Err(CoreError::conflict(String::from_str(
                    "a snapshot still references this image",
                )));
            }
            if row.name.eq(name) {
                found = true;
                proof {
                    assert(self.rows@[i as int].name@ == name@);
                }
            }
            i += 1;
        }
        if !found {
            return Err(CoreError::not_found(String::from_str("image does not exist")));
        }
        let ghost pre = self.rows@;
        let mut out: Vec<VmImageRow> = Vec::new();
        let mut k: usize = 0;
        while k < self.rows.len()
            invariant
                k <= pre.len(),
                self.rows@ == pre,
                out@ == without_image(pre.take(k as int), name@),
            decreases pre.len() - k,
        {
            proof {
                assert(pre.take(k + 1).drop_last() =~= pre.take(k as int));
                assert(pre.take(k + 1).last() == pre[k as int]);
            }
            if !self.rows[k].name.eq(name) {
                let row = &self.rows[k];
                let kept = VmImageRow {
                    name: row.name.clone(),
                    kind: row.kind,
                    parent: match &row.parent {
                        Some(p) => Some(p.clone()),
                        None => None,
                    },
                    path: row.path.clone(),
                    format: row.format.clone(),
                    size: row.size,
                };
                let ghost pre_out = out@;
                out.push(kept);
                proof {
                    assert(out@.drop_last() =~= pre_out);
                    assert(out@.last() == pre[k as int]);
                }
            }
            k += 1;
        }
        proof {
            assert(pre.take(pre.len() as int) =~= pre);
        }
        self.rows = out;
        Ok(())
    }
}

/// The rows left when the named image goes away.
pub open spec fn without_image(rows: Seq<VmImageRow>, name: Seq<char>) -> Seq<VmImageRow>
    decreases rows.len(),
{
    if rows.len() == 0 {
        Seq::empty()
    } else {
        let rest = without_image(rows.drop_last(), name);
        if rows.last().name@ == name {
            rest
        } else {
            rest.push(rows.last())
        }
    }
}

} // verus!
