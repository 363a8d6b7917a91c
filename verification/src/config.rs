//! Server configuration and its field-by-field update.
//!
//! A configuration update arrives as one JSON value.  Each field is
//! validated independently: an invalid or missing field keeps its previous
//! value and yields a warning, never an error.  Folder fields are checked
//! for existence by the caller, which owns the file system.

use vstd::prelude::*;

use crate::bytes::clone_bytes;
use crate::dialects::{
    libra_name, spec_valid_address, starcoin_name, DialectName, LibraDialect,
    ProvidedAccountAddress,
};

verus! {

/// The server configuration.
pub struct Config {
    pub dialect_name: DialectName,
    pub stdlib_folder: Option<Vec<u8>>,
    pub modules_folders: Vec<Vec<u8>>,
    pub sender_address: ProvidedAccountAddress,
}

/// The dialect a known name selects.
pub open spec fn spec_dialect_of(s: Seq<u8>) -> DialectName {
    if s == libra_name() {
        DialectName::Libra
    } else {
        DialectName::Starcoin
    }
}

/// One recoverable problem found while applying an update.
#[derive(PartialEq, Eq, Structural, Clone, Copy, Debug)]
pub enum ConfigWarning {
    UnknownDialect,
    StdlibFolderMissing,
    ModulesFolderMissing,
    InvalidSenderAddress,
}

/// The fields of a configuration update, already taken apart; a `None`
/// field was missing or carried the wrong JSON type.
pub struct ConfigUpdate {
    pub dialect: Option<Vec<u8>>,
    pub stdlib_folder: Option<Vec<u8>>,
    pub modules_folders: Option<Vec<Vec<u8>>>,
    pub sender_address: Option<Vec<u8>>,
}

/// The folders of `list` whose existence flag is set.
pub open spec fn spec_filter_kept(list: Seq<Vec<u8>>, keep: Seq<bool>) -> Seq<Vec<u8>>
    decreases list.len(),
{
    if list.len() == 0 {
        Seq::empty()
    } else if keep[0] {
        seq![list.first()] + spec_filter_kept(list.drop_first(), keep.drop_first())
    } else {
        spec_filter_kept(list.drop_first(), keep.drop_first())
    }
}

impl Config {
    /// The sender really is a canonicalized address.
    pub open spec fn wf(&self) -> bool {
        self.sender_address.wf()
    }

    /// The configured sender address.
    pub fn sender(&self) -> (r: &ProvidedAccountAddress)
        ensures
            r == &self.sender_address,
    {
        &self.sender_address
    }

    /// The dialect the configuration selects.
    pub fn dialect(&self) -> (r: LibraDialect)
        ensures
            r == LibraDialect,
    {
        self.dialect_name.get_dialect()
    }

    /// Deep copy, for database snapshots.
    pub fn duplicate(&self) -> (r: Config)
        ensures
            r.dialect_name == self.dialect_name,
            match r.stdlib_folder {
                Some(p) => self.stdlib_folder matches Some(q) && p@ == q@,
                None => self.stdlib_folder is None,
            },
            r.modules_folders@.len() == self.modules_folders@.len(),
            forall|i: int|
                0 <= i < r.modules_folders@.len() ==> (#[trigger] r.modules_folders@[i])@
                    == self.modules_folders@[i]@,
            r.sender_address.original@ == self.sender_address.original@,
            r.sender_address.normalized_original@ == self.sender_address.normalized_original@,
            r.sender_address.normalized_extended@ == self.sender_address.normalized_extended@,
            self.wf() ==> r.wf(),
    {
        let stdlib = match &self.stdlib_folder {
            Some(p) => Some(clone_bytes(p)),
            None => None,
        };
        let mut folders: Vec<Vec<u8>> = Vec::new();
        let mut i: usize = 0;
        let n = self.modules_folders.len();
        while i < n
            invariant
                i <= n,
                n == self.modules_folders@.len(),
                folders@.len() == i,
                forall|j: int|
                    0 <= j < i ==> (#[trigger] folders@[j])@ == self.modules_folders@[j]@,
            decreases n - i,
        {
            folders.push(clone_bytes(&self.modules_folders[i]));
            i = i + 1;
        }
        Config {
            dialect_name: self.dialect_name,
            stdlib_folder: stdlib,
            modules_folders: folders,
            sender_address: self.sender_address.duplicate(),
        }
    }

    /// Applies one update: every field is validated independently, an
    /// invalid or missing field keeps its previous value, folders whose
    /// existence flag is unset are dropped, and each failure yields a
    /// warning.  The sender address is canonicalized under the updated
    /// dialect.
    pub fn update(&mut self, upd: ConfigUpdate, stdlib_exists: bool, modules_exist: &Vec<bool>) -> (warnings:
        Vec<ConfigWarning>)
        requires
            old(self).wf(),
            upd.modules_folders matches Some(l) ==> modules_exist@.len() == l@.len(),
        ensures
            final(self).wf(),
            match upd.dialect {
                Some(s) => {
                    if s@ == libra_name() || s@ == starcoin_name() {
                        final(self).dialect_name == spec_dialect_of(s@)
                    } else {
                        final(self).dialect_name == old(self).dialect_name
                    }
                },
                None => final(self).dialect_name == old(self).dialect_name,
            },
            match upd.stdlib_folder {
                Some(p) => {
                    if stdlib_exists {
                        final(self).stdlib_folder matches Some(q) && q@ == p@
                    } else {
                        final(self).stdlib_folder == old(self).stdlib_folder
                    }
                },
                None => final(self).stdlib_folder == old(self).stdlib_folder,
            },
            match upd.modules_folders {
                Some(l) => final(self).modules_folders@ == spec_filter_kept(l@, modules_exist@),
                None => final(self).modules_folders == old(self).modules_folders,
            },
            match upd.sender_address {
                Some(s) => {
                    if spec_valid_address(s@) {
                        final(self).sender_address.original@ == s@
                            && final(self).sender_address.wf()
                    } else {
                        final(self).sender_address == old(self).sender_address
                    }
                },
                None => final(self).sender_address == old(self).sender_address,
            },
            warnings@.contains(ConfigWarning::UnknownDialect) <==> (upd.dialect matches Some(s)
                && s@ != libra_name() && s@ != starcoin_name()),
            warnings@.contains(ConfigWarning::StdlibFolderMissing) <==> (upd.stdlib_folder matches
                Some(p) && !stdlib_exists),
            warnings@.contains(ConfigWarning::ModulesFolderMissing) <==> (upd.modules_folders
                matches Some(l) && exists|k: int|
                0 <= k < modules_exist@.len() && !(#[trigger] modules_exist@[k])),
            warnings@.contains(ConfigWarning::InvalidSenderAddress) <==> (upd.sender_address
                matches Some(s) && !spec_valid_address(s@)),
    {
        let mut dialect_bad = false;
        let mut stdlib_missing = false;
        let mut modules_dropped = false;
        let mut sender_bad = false;
        match upd.dialect {
            Some(s) => {
                match DialectName::from_bytes(&s) {
                    Ok(d) => {
                        self.dialect_name = d;
                    },
                    Err(_) => {
                        dialect_bad = true;
                    },
                }
            },
            None => {},
        }
        match upd.stdlib_folder {
            Some(p) => {
                if stdlib_exists {
                    self.stdlib_folder = Some(p);
                } else {
                    stdlib_missing = true;
                }
            },
            None => {},
        }
        match upd.modules_folders {
            Some(l) => {
                let ghost lv = l@;
                let ghost flags = modules_exist@;
                let n_total = l.len();
                let mut kept: Vec<Vec<u8>> = Vec::new();
                let mut dropped = false;
                let mut rest = l;
                let mut i: usize = 0;
                proof {
                    assert(lv.skip(0) =~= lv);
                    assert(flags.skip(0) =~= flags);
                }
                while rest.len() > 0
                    invariant
                        i + rest@.len() == lv.len(),
                        lv.len() == n_total,
                        flags.len() == lv.len(),
                        modules_exist@ == flags,
                        rest@ =~= lv.skip(i as int),
                        spec_filter_kept(lv, flags) == kept@ + spec_filter_kept(
                            rest@,
                            flags.skip(i as int),
                        ),
                        dropped <==> exists|k: int| 0 <= k < i && !flags[k],
                    decreases rest@.len(),
                {
                    let ghost kept0 = kept@;
                    proof {
                        assert(rest@.first() == lv[i as int]);
                        assert(rest@.drop_first() =~= lv.skip(i + 1));
                        assert(flags.skip(i as int).first() == flags[i as int]);
                        assert(flags.skip(i as int).drop_first() =~= flags.skip(i + 1));
                    }
                    let folder = rest.remove(0);
                    proof {
                        assert(rest@ =~= lv.skip(i + 1));
                    }
                    if modules_exist[i] {
                        kept.push(folder);
                        proof {
                            assert(kept@ =~= kept0.push(lv[i as int]));
                            assert(kept0 + (seq![lv[i as int]] + spec_filter_kept(
                                lv.skip(i + 1),
                                flags.skip(i + 1),
                            )) =~= kept@ + spec_filter_kept(lv.skip(i + 1), flags.skip(i + 1)));
                        }
                    } else {
                        dropped = true;
                    }
                    i = i + 1;
                }
                proof {
                    assert(spec_filter_kept(rest@, flags.skip(i as int)) =~= Seq::<Vec<u8>>::empty());
                    assert(kept@ + Seq::<Vec<u8>>::empty() =~= kept@);
                }
                self.modules_folders = kept;
                modules_dropped = dropped;
            },
            None => {},
        }
        match upd.sender_address {
            Some(s) => {
                let dialect = self.dialect_name.get_dialect();
                match dialect.normalize_account_address(&s) {
                    Ok(p) => {
                        self.sender_address = p;
                    },
                    Err(_) => {
                        sender_bad = true;
                    },
                }
            },
            None => {},
        }
        let mut warnings: Vec<ConfigWarning> = Vec::new();
        if dialect_bad {
            warnings.push(ConfigWarning::UnknownDialect);
        }
        if stdlib_missing {
            warnings.push(ConfigWarning::StdlibFolderMissing);
        }
        if modules_dropped {
            warnings.push(ConfigWarning::ModulesFolderMissing);
        }
        if sender_bad {
            warnings.push(ConfigWarning::InvalidSenderAddress);
        }
        proof {
            let w = warnings@;
            assert(w.contains(ConfigWarning::UnknownDialect) <==> dialect_bad) by {
                if dialect_bad {
                    assert(w[0] == ConfigWarning::UnknownDialect);
                } else {
                    assert(forall|k: int| 0 <= k < w.len() ==> w[k] != ConfigWarning::UnknownDialect);
                }
            }
            assert(w.contains(ConfigWarning::StdlibFolderMissing) <==> stdlib_missing) by {
                if stdlib_missing {
                    if dialect_bad {
                        assert(w[1] == ConfigWarning::StdlibFolderMissing);
                    } else {
                        assert(w[0] == ConfigWarning::StdlibFolderMissing);
                    }
                } else {
                    assert(forall|k: int|
                        0 <= k < w.len() ==> w[k] != ConfigWarning::StdlibFolderMissing);
                }
            }
            assert(w.contains(ConfigWarning::ModulesFolderMissing) <==> modules_dropped) by {
                if modules_dropped {
                    if dialect_bad && stdlib_missing {
                        assert(w[2] == ConfigWarning::ModulesFolderMissing);
                    } else if dialect_bad || stdlib_missing {
                        assert(w[1] == ConfigWarning::ModulesFolderMissing);
                    } else {
                        assert(w[0] == ConfigWarning::ModulesFolderMissing);
                    }
                } else {
                    assert(forall|k: int|
                        0 <= k < w.len() ==> w[k] != ConfigWarning::ModulesFolderMissing);
                }
            }
            assert(w.contains(ConfigWarning::InvalidSenderAddress) <==> sender_bad) by {
                if sender_bad {
                    assert(w.last() == ConfigWarning::InvalidSenderAddress);
                } else {
                    assert(forall|k: int|
                        0 <= k < w.len() ==> w[k] != ConfigWarning::InvalidSenderAddress);
                }
            }
        }
        warnings
    }
}

impl Default for Config {
    /// The default configuration: the libra dialect, no standard library,
    /// no module folders, sender `0x1`.
    fn default() -> (c: Config)
        ensures
            c.wf(),
            c.dialect_name is Libra,
            c.stdlib_folder is None,
            c.modules_folders@.len() == 0,
            c.sender_address.original@ == seq![48u8, 120u8, 49u8],
    {
        let mut addr: Vec<u8> = Vec::new();
        addr.push(48);
        addr.push(120);
        addr.push(49);
        proof {
            assert(addr@ =~= seq![48u8, 120u8, 49u8]);
            assert(spec_valid_address(addr@)) by {
                assert(addr@[2] == 49u8);
            }
        }
        let sender = match LibraDialect.normalize_account_address(&addr) {
            Ok(p) => p,
            Err(_) => {
                proof {
                    assert(false);
                }
                ProvidedAccountAddress {
                    original: Vec::new(),
                    normalized_original: Vec::new(),
                    normalized_extended: Vec::new(),
                }
            },
        };
        Config {
            dialect_name: DialectName::Libra,
            stdlib_folder: None,
            modules_folders: Vec::new(),
            sender_address: sender,
        }
    }
}

} // verus!
