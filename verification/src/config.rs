//! Process-wide configuration: which transport backend runs and where each
//! one delivers.
//!
//! The configuration is built once at startup from optional externally
//! supplied values (environment-style settings); an absent value falls back
//! to a fixed local default. It is immutable afterwards.

use vstd::prelude::*;

verus! {

/// Which transport backend the driver binds.
#[derive(Clone, Copy, PartialEq, Eq, Structural, Debug)]
pub enum BackendKind {
    Rest,
    Rpc,
}

/// The immutable process configuration.
pub struct Config {
    pub backend: BackendKind,
    pub rest_base: Vec<u8>,
    pub rpc_url: Vec<u8>,
}

/// The bytes of `http://localhost:8000`.
pub open spec fn lit_default_rest_base() -> Seq<u8> {
    seq![104u8, 116u8, 116u8, 112u8, 58u8, 47u8, 47u8, 108u8, 111u8, 99u8, 97u8, 108u8, 104u8, 111u8, 115u8, 116u8, 58u8, 56u8, 48u8, 48u8, 48u8]
}

fn push_default_rest_base(out: &mut Vec<u8>)
    ensures
        final(out)@ == old(out)@ + lit_default_rest_base(),
{
    out.push(104);
    out.push(116);
    out.push(116);
    out.push(112);
    out.push(58);
    out.push(47);
    out.push(47);
    out.push(108);
    out.push(111);
    out.push(99);
    out.push(97);
    out.push(108);
    out.push(104);
    out.push(111);
    out.push(115);
    out.push(116);
    out.push(58);
    out.push(56);
    out.push(48);
    out.push(48);
    out.push(48);
    proof {
        assert(out@ =~= old(out)@ + lit_default_rest_base());
    }
}

/// The bytes of `tcp://127.0.0.1:10234`.
pub open spec fn lit_default_rpc_url() -> Seq<u8> {
    seq![116u8, 99u8, 112u8, 58u8, 47u8, 47u8, 49u8, 50u8, 55u8, 46u8, 48u8, 46u8, 48u8, 46u8, 49u8, 58u8, 49u8, 48u8, 50u8, 51u8, 52u8]
}

fn push_default_rpc_url(out: &mut Vec<u8>)
    ensures
        final(out)@ == old(out)@ + lit_default_rpc_url(),
{
    out.push(116);
    out.push(99);
    out.push(112);
    out.push(58);
    out.push(47);
    out.push(47);
    out.push(49);
    out.push(50);
    out.push(55);
    out.push(46);
    out.push(48);
    out.push(46);
    out.push(48);
    out.push(46);
    out.push(49);
    out.push(58);
    out.push(49);
    out.push(48);
    out.push(50);
    out.push(51);
    out.push(52);
    proof {
        assert(out@ =~= old(out)@ + lit_default_rpc_url());
    }
}

/// The bytes of `rpc`.
pub open spec fn lit_rpc_name() -> Seq<u8> {
    seq![114u8, 112u8, 99u8]
}

fn push_rpc_name(out: &mut Vec<u8>)
    ensures
        final(out)@ == old(out)@ + lit_rpc_name(),
{
    out.push(114);
    out.push(112);
    out.push(99);
    proof {
        assert(out@ =~= old(out)@ + lit_rpc_name());
    }
}

/// Which backend a configured name selects: exactly the name `rpc` selects
/// the binary-RPC backend; anything else, or no setting, selects REST.
pub open spec fn backend_for(name: Option<Seq<u8>>) -> BackendKind {
    match name {
        Some(s) => if s == lit_rpc_name() {
            BackendKind::Rpc
        } else {
            BackendKind::Rest
        },
        None => BackendKind::Rest,
    }
}

fn eq_bytes(a: &Vec<u8>, b: &[u8]) -> (r: bool)
    ensures
        r == (a@ == b@),
{
    if a.len() != b.len() {
        proof {
            assert(a@.len() != b@.len());
        }
        return false;
    }
    let mut i: usize = 0;
    while i < a.len()
        invariant
            i <= a@.len(),
            a@.len() == b@.len(),
            forall|k: int| 0 <= k < i ==> a@[k] == b@[k],
        decreases a@.len() - i,
    {
        if a[i] != b[i] {
            return false;
        }
        i = i + 1;
    }
    proof {
        assert(a@ =~= b@);
    }
    true
}

/// Selects the backend from the configured name.
pub fn select_backend(name: Option<Vec<u8>>) -> (k: BackendKind)
    ensures
        k == backend_for(match name {
            Some(v) => Some(v@),
            None => None,
        }),
{
    match name {
        Some(v) => {
            let mut rpc_name: Vec<u8> = Vec::new();
            push_rpc_name(&mut rpc_name);
            if eq_bytes(&v, rpc_name.as_slice()) {
                BackendKind::Rpc
            } else {
                BackendKind::Rest
            }
        },
        None => BackendKind::Rest,
    }
}

impl Config {
    /// Builds the configuration once: a supplied value wins, an absent one
    /// falls back to the fixed local default.
    pub fn from_settings(
        backend: BackendKind,
        rest_base: Option<Vec<u8>>,
        rpc_url: Option<Vec<u8>>,
    ) -> (c: Config)
        ensures
            c.backend == backend,
            c.rest_base@ == match rest_base {
                Some(v) => v@,
                None => lit_default_rest_base(),
            },
            c.rpc_url@ == match rpc_url {
                Some(v) => v@,
                None => lit_default_rpc_url(),
            },
    {
        let rest_base = match rest_base {
            Some(v) => v,
            None => {
                let mut d: Vec<u8> = Vec::new();
                push_default_rest_base(&mut d);
                d
            },
        };
        let rpc_url = match rpc_url {
            Some(v) => v,
            None => {
                let mut d: Vec<u8> = Vec::new();
                push_default_rpc_url(&mut d);
                d
            },
        };
        Config { backend, rest_base, rpc_url }
    }
}

} // verus!
