//! Reading the configuration of a run from text, and the exit codes of the program.

use vstd::prelude::*;
use vstd::string::*;
use crate::address::AddrBlock;
use crate::ports::PortError;

verus! {

/// The error type of the `cidr` crate's parsers, carried through as it is.
#[verifier::external_type_specification]
#[verifier::external_body]
pub struct ExNetworkParseError(cidr::errors::NetworkParseError);

/// What `str::trim` makes of a text.
pub uninterp spec fn trimmed(s: Seq<char>) -> Seq<char>;

/// The network that `cidr::IpCidr` reads from a text, as its family (true for IPv6) and
/// the numeric values of its first and last address; `None` where it reads none.
pub uninterp spec fn network_of_text(s: Seq<char>) -> Option<(bool, u128, u128)>;

/// Calls `str::trim`. Trusted: the result is named, nothing more is claimed of it.
#[verifier::external_body]
fn trim_text(s: &str) -> (r: &str)
    ensures
        r@ == trimmed(s@),
{
    s.trim()
}

/// Calls the `FromStr` impl of `cidr::IpCidr` and hands the network back as a block.
/// Trusted: whether it succeeds and what it reads depend on the text alone; a network
/// that was read runs from its first address to its last, which is not below the first,
/// and an IPv4 address is a 32-bit number.
#[verifier::external_body]
fn parse_network(text: &str) -> (r: Result<AddrBlock, cidr::errors::NetworkParseError>)
    ensures
        r is Ok <==> network_of_text(text@) is Some,
        r matches Ok(b) ==> b.wf() && network_of_text(text@) == Some((b.v6, b.first, b.last)),
{
    match text.parse::<cidr::IpCidr>() {
        Ok(cidr::IpCidr::V4(c)) => Ok(AddrBlock {
            v6: false,
            first: u128::from(u32::from(c.first_address())),
            last: u128::from(u32::from(c.last_address())),
        }),
        Ok(cidr::IpCidr::V6(c)) => Ok(AddrBlock {
            v6: true,
            first: u128::from(c.first_address()),
            last: u128::from(c.last_address()),
        }),
        Err(e) => Err(e),
    }
}

/// Formats a `cidr::errors::NetworkParseError` by its `Display` impl. Trusted: nothing
/// is claimed of the text.
#[verifier::external_body]
fn describe_network_error(e: &cidr::errors::NetworkParseError) -> (r: String) {
    format!("{}", e)
}

/// Why a run could not be configured.
pub enum ParamError {
    Message(String),
    PortError(PortError),
    NetParseError(cidr::errors::NetworkParseError),
}

impl ParamError {
    /// The error that carries the given message.
    pub fn from_text(m: &str) -> (r: ParamError)
        ensures
            r matches ParamError::Message(s) && s@ == m@,
    {
        ParamError::Message(m.to_owned())
    }

    /// The error as a line for the user.
    pub fn message(&self) -> (r: String)
        ensures
            self matches ParamError::Message(m) ==> r@ == m@,
            self matches ParamError::PortError(PortError::Invalid) ==> r@
                == "a port must be a number from 0 to 65535"@,
            self matches ParamError::PortError(PortError::Reversed) ==> r@
                == "the first port is above the last"@,
    {
        match self {
            ParamError::Message(m) => m.as_str().to_owned(),
            ParamError::PortError(PortError::Invalid) => "a port must be a number from 0 to 65535".to_owned(),
            ParamError::PortError(PortError::Reversed) => "the first port is above the last".to_owned(),
            ParamError::NetParseError(e) => describe_network_error(e),
        }
    }
}

/// The fields of `s` from index `i` on, split at each comma, where the field being read
/// began at `start`.
pub open spec fn fields_acc(s: Seq<char>, i: int, start: int) -> Seq<Seq<char>>
    decreases s.len() - i,
{
    if i >= s.len() {
        seq![s.subrange(start, s.len() as int)]
    } else if s[i] == ',' {
        seq![s.subrange(start, i)] + fields_acc(s, i + 1, i + 1)
    } else {
        fields_acc(s, i + 1, start)
    }
}

/// The fields of a comma-separated list: one more than it has commas, empty ones included.
pub open spec fn fields(s: Seq<char>) -> Seq<Seq<char>> {
    fields_acc(s, 0, 0)
}

/// Splits a comma-separated list into its fields and trims each.
pub fn list_fields(val: &str) -> (r: Vec<String>)
    ensures
        r@.len() == fields(val@).len(),
        forall|j: int| 0 <= j < r@.len() ==> (#[trigger] r@[j])@ == trimmed(fields(val@)[j]),
{
    let raw = split_fields(val);
    let mut out: Vec<String> = Vec::new();
    let mut k: usize = 0;
    while k < raw.len()
        invariant
            k <= raw@.len(),
            raw@.len() == fields(val@).len(),
            forall|j: int| 0 <= j < raw@.len() ==> (#[trigger] raw@[j])@ == fields(val@)[j],
            out@.len() == k,
            forall|j: int| 0 <= j < k ==> (#[trigger] out@[j])@ == trimmed(fields(val@)[j]),
        decreases raw@.len() - k,
    {
        assert(raw@[k as int]@ == fields(val@)[k as int]);
        out.push(trim_text(raw[k].as_str()).to_owned());
        k += 1;
    }
    out
}

/// Splits a comma-separated list into its fields, as they stand.
pub fn split_fields(val: &str) -> (r: Vec<String>)
    ensures
        r@.len() == fields(val@).len(),
        forall|j: int| 0 <= j < r@.len() ==> (#[trigger] r@[j])@ == fields(val@)[j],
{
    let n = val.unicode_len();
    let mut out: Vec<String> = Vec::new();
    let ghost mut done: Seq<Seq<char>> = Seq::empty();
    let mut start: usize = 0;
    let mut i: usize = 0;
    while i < n
        invariant
            start <= i <= n,
            n == val@.len(),
            done + fields_acc(val@, i as int, start as int) == fields(val@),
            out@.len() == done.len(),
            forall|j: int| 0 <= j < out@.len() ==> (#[trigger] out@[j])@ == done[j],
        decreases n - i,
    {
        if val.get_char(i) == ',' {
            let part = val.substring_char(start, i);
            out.push(part.to_owned());
            proof {
                let field = val@.subrange(start as int, i as int);
                assert(done.push(field) + fields_acc(val@, i + 1, i + 1) =~= done + fields_acc(
                    val@,
                    i as int,
                    start as int,
                ));
                done = done.push(field);
            }
            start = i + 1;
        }
        i += 1;
    }
    let part = val.substring_char(start, n);
    out.push(part.to_owned());
    proof {
        let field = val@.subrange(start as int, n as int);
        assert(done.push(field) =~= done + fields_acc(val@, n as int, start as int));
    }
    out
}

/// Takes one network as it was read: a block joins `out`, an error ends the reading.
pub fn accept_network(out: &mut Vec<AddrBlock>, parsed: Result<AddrBlock, cidr::errors::NetworkParseError>) -> (r:
    Result<(), ParamError>)
    ensures
        match parsed {
            Ok(b) => r is Ok && final(out)@ == old(out)@.push(b),
            Err(e) => r == Err::<(), ParamError>(ParamError::NetParseError(e)) && final(out)@ == old(out)@,
        },
{
    match parsed {
        Ok(b) => {
            out.push(b);
            Ok(())
        },
        Err(e) => Err(ParamError::NetParseError(e)),
    }
}

/// Reads a comma-separated list of networks: single addresses or CIDR blocks.
///
/// Each trimmed field must read as a network; the blocks come back in the order of the
/// fields. The first field that does not read gives the error.
pub fn parse_addresses(val: &str) -> (r: Result<Vec<AddrBlock>, ParamError>)
    ensures
        r is Ok <==> forall|j: int|
            0 <= j < fields(val@).len() ==> network_of_text(trimmed(#[trigger] fields(val@)[j])) is Some,
        r matches Ok(v) ==> {
            &&& v@.len() == fields(val@).len()
            &&& forall|j: int|
                0 <= j < v@.len() ==> (#[trigger] v@[j]).wf() && network_of_text(
                    trimmed(fields(val@)[j]),
                ) == Some((v@[j].v6, v@[j].first, v@[j].last))
        },
        r matches Err(e) ==> e is NetParseError,
{
    let texts = list_fields(val);
    let mut out: Vec<AddrBlock> = Vec::new();
    let mut k: usize = 0;
    while k < texts.len()
        invariant
            k <= texts@.len(),
            texts@.len() == fields(val@).len(),
            forall|j: int| 0 <= j < texts@.len() ==> (#[trigger] texts@[j])@ == trimmed(fields(val@)[j]),
            out@.len() == k,
            forall|j: int|
                0 <= j < k ==> (#[trigger] out@[j]).wf() && network_of_text(trimmed(fields(val@)[j]))
                    == Some((out@[j].v6, out@[j].first, out@[j].last)),
        decreases texts@.len() - k,
    {
        let ghost field = fields(val@)[k as int];
        assert(texts@[k as int]@ == trimmed(field));
        let parsed = parse_network(texts[k].as_str());
        match accept_network(&mut out, parsed) {
            Ok(()) => {},
            Err(e) => {
                assert(network_of_text(trimmed(fields(val@)[k as int])) is None);
                return Err(e);
            },
        }
        k += 1;
    }
    proof {
        assert forall|j: int| 0 <= j < fields(val@).len() implies network_of_text(
            trimmed(#[trigger] fields(val@)[j]),
        ) is Some by {
            assert(out@[j].wf());
        }
    }
    Ok(out)
}

/// The exit code after the configuration was read: 127 if it was refused, else 0.
pub fn config_exit_code(refused: bool) -> (r: i32)
    ensures
        r == if refused { 127i32 } else { 0i32 },
{
    if refused { 127 } else { 0 }
}

/// The exit code after a run: 2 if a termination signal ended it, else 0.
pub fn run_exit_code(interrupted: bool) -> (r: i32)
    ensures
        r == if interrupted { 2i32 } else { 0i32 },
{
    if interrupted { 2 } else { 0 }
}

} // verus!
