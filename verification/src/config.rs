//! The server configuration: built once at startup, read-only afterwards,
//! shared by every worker.

use vstd::prelude::*;
use crate::text::{bytes_eq, seq_views, sub_vec};

verus! {

/// One virtual host's settings.  `error_pages` maps a status code to the
/// page text served with it; of duplicate codes the last entry wins, as a
/// map filled in order would have it.
pub struct ServerConfig {
    pub hostname: Vec<u8>,
    pub port: u16,
    pub root_dir: Vec<u8>,
    pub error_pages: Vec<(u16, Vec<u8>)>,
    pub max_body_size: usize,
    pub allowed_methods: Vec<Vec<u8>>,
    pub default_file: Vec<u8>,
}

/// The mathematical shadow of a [`ServerConfig`].
pub ghost struct ConfigModel {
    pub hostname: Seq<u8>,
    pub port: u16,
    pub root_dir: Seq<u8>,
    pub error_pages: Seq<(u16, Seq<u8>)>,
    pub max_body_size: nat,
    pub allowed_methods: Seq<Seq<u8>>,
    pub default_file: Seq<u8>,
}

/// The views of a sequence of status-code/page pairs.
pub open spec fn page_views(s: Seq<(u16, Vec<u8>)>) -> Seq<(u16, Seq<u8>)> {
    s.map_values(|p: (u16, Vec<u8>)| (p.0, p.1@))
}

impl View for ServerConfig {
    type V = ConfigModel;

    open spec fn view(&self) -> ConfigModel {
        ConfigModel {
            hostname: self.hostname@,
            port: self.port,
            root_dir: self.root_dir@,
            error_pages: page_views(self.error_pages@),
            max_body_size: self.max_body_size as nat,
            allowed_methods: seq_views(self.allowed_methods@),
            default_file: self.default_file@,
        }
    }
}

/// The page configured for `code`, if any; the last entry for a code wins.
pub open spec fn spec_error_page(pages: Seq<(u16, Seq<u8>)>, code: u16) -> Option<Seq<u8>>
    decreases pages.len(),
{
    if pages.len() == 0 {
        None
    } else if pages.last().0 == code {
        Some(pages.last().1)
    } else {
        spec_error_page(pages.drop_last(), code)
    }
}

/// Whether `m` is one of the allowed methods.
pub open spec fn spec_method_allowed(ms: Seq<Seq<u8>>, m: Seq<u8>) -> bool {
    ms.contains(m)
}

impl ServerConfig {
    /// The error page configured for `code`, if any.
    pub fn error_page(&self, code: u16) -> (r: Option<&Vec<u8>>)
        ensures
            match r {
                Some(p) => spec_error_page(self@.error_pages, code) == Some(p@),
                None => spec_error_page(self@.error_pages, code) is None,
            },
    {
        let mut j: usize = self.error_pages.len();
        proof {
            assert(self@.error_pages.take(j as int) =~= self@.error_pages);
        }
        while j > 0
            invariant
                j <= self.error_pages.len(),
                spec_error_page(self@.error_pages, code) == spec_error_page(
                    self@.error_pages.take(j as int),
                    code,
                ),
            decreases j,
        {
            j = j - 1;
            proof {
                assert(self@.error_pages.take(j + 1).drop_last() =~= self@.error_pages.take(
                    j as int,
                ));
                assert(self@.error_pages.take(j + 1).last() == self@.error_pages[j as int]);
            }
            if self.error_pages[j].0 == code {
                return Some(&self.error_pages[j].1);
            }
        }
        None
    }

    /// A copy of the configuration, field for field; each worker gets one.
    pub fn duplicate(&self) -> (r: ServerConfig)
        ensures
            r@ == self@,
    {
        let mut error_pages: Vec<(u16, Vec<u8>)> = Vec::new();
        let mut i: usize = 0;
        while i < self.error_pages.len()
            invariant
                i <= self.error_pages.len(),
                error_pages@.len() == i,
                forall|k: int|
                    0 <= k < i ==> (#[trigger] error_pages@[k]).0 == self.error_pages@[k].0
                        && error_pages@[k].1@ == self.error_pages@[k].1@,
            decreases self.error_pages.len() - i,
        {
            let code = self.error_pages[i].0;
            let page = sub_vec(&self.error_pages[i].1, 0, self.error_pages[i].1.len());
            proof {
                assert(page@ =~= self.error_pages@[i as int].1@);
            }
            error_pages.push((code, page));
            i = i + 1;
        }
        let mut allowed_methods: Vec<Vec<u8>> = Vec::new();
        let mut j: usize = 0;
        while j < self.allowed_methods.len()
            invariant
                j <= self.allowed_methods.len(),
                allowed_methods@.len() == j,
                forall|k: int|
                    0 <= k < j ==> (#[trigger] allowed_methods@[k])@
                        == self.allowed_methods@[k]@,
            decreases self.allowed_methods.len() - j,
        {
            let m = sub_vec(&self.allowed_methods[j], 0, self.allowed_methods[j].len());
            proof {
                assert(m@ =~= self.allowed_methods@[j as int]@);
            }
            allowed_methods.push(m);
            j = j + 1;
        }
        proof {
            assert(page_views(error_pages@) =~~= page_views(self.error_pages@));
            assert(seq_views(allowed_methods@) =~~= seq_views(self.allowed_methods@));
        }
        let hostname = sub_vec(&self.hostname, 0, self.hostname.len());
        let root_dir = sub_vec(&self.root_dir, 0, self.root_dir.len());
        let default_file = sub_vec(&self.default_file, 0, self.default_file.len());
        proof {
            assert(hostname@ =~= self.hostname@);
            assert(root_dir@ =~= self.root_dir@);
            assert(default_file@ =~= self.default_file@);
        }
        ServerConfig {
            hostname,
            port: self.port,
            root_dir,
            error_pages,
            max_body_size: self.max_body_size,
            allowed_methods,
            default_file,
        }
    }

    /// Whether the configuration allows the method `m`.
    pub fn method_allowed(&self, m: &Vec<u8>) -> (r: bool)
        ensures
            r == spec_method_allowed(self@.allowed_methods, m@),
    {
        let mut i: usize = 0;
        while i < self.allowed_methods.len()
            invariant
                i <= self.allowed_methods.len(),
                forall|j: int| 0 <= j < i ==> seq_views(self.allowed_methods@)[j] != m@,
            decreases self.allowed_methods.len() - i,
        {
            if bytes_eq(&self.allowed_methods[i], m) {
                proof {
                    assert(seq_views(self.allowed_methods@)[i as int] == m@);
                }
                return true;
            }
            i = i + 1;
        }
        proof {
            assert(forall|j: int|
                0 <= j < self@.allowed_methods.len() ==> self@.allowed_methods[j] != m@);
            assert(!self@.allowed_methods.contains(m@));
        }
        false
    }
}

} // verus!
