//! Scan options for the bundled target-scanning utility: the scan mode, its
//! filter rule, the parsed option set, and the proxy-URI validation rule.

use vstd::prelude::*;
use vstd::string::StringSliceAdditionalSpecFns;

verus! {

/// Which protocol a scan runs against; `Auto` stands for all of them.
#[derive(Copy, Clone, PartialEq, Eq, Structural, Debug)]
pub enum Mode {
    Auto,
    Web,
    Rdp,
    Vnc,
}

impl Mode {
    /// Determine whether the supplied mode filter is valid for the current
    /// mode: `Auto` accepts every filter, any other mode accepts itself and
    /// `Auto`.
    pub fn selected(&self, filter: Self) -> (r: bool)
        ensures
            r == (*self == Mode::Auto || *self == filter || filter == Mode::Auto),
    {
        *self == Mode::Auto || *self == filter || filter == Mode::Auto
    }
}

impl Default for Mode {
    /// The default mode scans everything.
    fn default() -> (r: Self)
        ensures
            r == Mode::Auto,
    {
        Mode::Auto
    }
}

/// The full option set a command line is parsed into.
#[derive(Debug)]
pub struct Opts {
    pub files: Vec<String>,
    pub targets: Vec<String>,
    pub mode: Mode,
    pub rdp_timeout: usize,
    pub threads: usize,
    pub log_file: Option<String>,
    pub nmaps: Vec<String>,
    pub nessus: Vec<String>,
    pub output_dir: String,
    pub web_proxy: Option<String>,
    pub rdp_proxy: Option<String>,
    pub silent: bool,
    pub verbose: u64,
    pub test_import: bool,
}

impl Default for Opts {
    /// Everything empty or off, and the mode on `Auto`.
    fn default() -> (r: Self)
        ensures
            r.files@.len() == 0,
            r.targets@.len() == 0,
            r.mode == Mode::Auto,
            r.rdp_timeout == 0,
            r.threads == 0,
            r.log_file is None,
            r.nmaps@.len() == 0,
            r.nessus@.len() == 0,
            r.output_dir@.len() == 0,
            r.web_proxy is None,
            r.rdp_proxy is None,
            r.silent == false,
            r.verbose == 0,
            r.test_import == false,
    {
        Opts {
            files: Vec::new(),
            targets: Vec::new(),
            mode: Mode::Auto,
            rdp_timeout: 0,
            threads: 0,
            log_file: None,
            nmaps: Vec::new(),
            nessus: Vec::new(),
            output_dir: String::new(),
            web_proxy: None,
            rdp_proxy: None,
            silent: false,
            verbose: 0,
            test_import: false,
        }
    }
}

/// The nine ASCII bytes of the scheme prefix a proxy URI must start with.
pub open spec fn spec_socks5_prefix() -> Seq<u8> {
    seq![115u8, 111u8, 99u8, 107u8, 115u8, 53u8, 58u8, 47u8, 47u8]
}

/// Accepts exactly the values that begin with the `socks5://` scheme.
pub fn is_socks5(val: &str) -> (r: Result<(), String>)
    ensures
        (r is Ok) <==> (val.spec_bytes().len() >= 9 && val.spec_bytes().subrange(0, 9)
            == spec_socks5_prefix()),
{
    let b = val.as_bytes();
    let ok = b.len() >= 9 && b[0] == 115 && b[1] == 111 && b[2] == 99 && b[3] == 107 && b[4] == 115
        && b[5] == 53 && b[6] == 58 && b[7] == 47 && b[8] == 47;
    if ok {
        proof {
            assert(val.spec_bytes().subrange(0, 9) =~= spec_socks5_prefix());
        }
        Ok(())
    } else {
        proof {
            if val.spec_bytes().len() >= 9 && val.spec_bytes().subrange(0, 9)
                == spec_socks5_prefix() {
                assert(b@[0] == val.spec_bytes().subrange(0, 9)[0]);
                assert(b@[1] == val.spec_bytes().subrange(0, 9)[1]);
                assert(b@[2] == val.spec_bytes().subrange(0, 9)[2]);
                assert(b@[3] == val.spec_bytes().subrange(0, 9)[3]);
                assert(b@[4] == val.spec_bytes().subrange(0, 9)[4]);
                assert(b@[5] == val.spec_bytes().subrange(0, 9)[5]);
                assert(b@[6] == val.spec_bytes().subrange(0, 9)[6]);
                assert(b@[7] == val.spec_bytes().subrange(0, 9)[7]);
                assert(b@[8] == val.spec_bytes().subrange(0, 9)[8]);
            }
        }
        Err("Global or RDP proxy must be a socks5:// URI".to_owned())
    }
}

} // verus!
