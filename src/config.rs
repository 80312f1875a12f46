use vstd::prelude::*;
use vstd::string::StringSliceAdditionalSpecFns;

verus! {

/// Why a scan cannot start.
#[derive(Debug, Clone, Copy, PartialEq, Eq, Structural)]
pub enum ConfigError {
    /// The wait bound is not a duration.
    InvalidDuration,
    /// The wait bound is zero.
    ZeroDuration,
    /// An entry of the port list is not a port number from 1 to 65535.
    InvalidPortList,
    /// The chunk size is zero.
    ZeroChunkSize,
}

/// How long a probe may wait for its connection.
#[derive(Debug, Clone, Copy, PartialEq, Eq, Structural)]
pub struct WaitBound {
    pub secs: u64,
    /// Below one second's worth of nanoseconds.
    pub nanos: u32,
}

/// Everything a scan needs besides the target address.
pub struct ScanPlan {
    pub ports: Vec<u16>,
    pub chunk_size: usize,
    pub wait: WaitBound,
}

pub open spec fn is_digit(c: u8) -> bool {
    48 <= c <= 57
}

pub open spec fn all_digits(s: Seq<u8>) -> bool {
    forall|k: int| 0 <= k < s.len() ==> is_digit(#[trigger] s[k])
}

/// The number that a string of decimal digits spells.
pub open spec fn decimal_value(s: Seq<u8>) -> nat
    decreases s.len(),
{
    if s.len() == 0 {
        0
    } else {
        decimal_value(s.drop_last()) * 10 + (s.last() - 48) as nat
    }
}

/// The digits of a port entry: an optional leading `+` is allowed.
pub open spec fn entry_digits(s: Seq<u8>) -> Seq<u8> {
    if s.len() > 0 && s[0] == 43 {
        s.drop_first()
    } else {
        s
    }
}

/// The port an entry names: at least one decimal digit, after an optional
/// `+`, with a value from 1 to 65535.
pub open spec fn port_of_entry(s: Seq<u8>) -> Option<u16> {
    let d = entry_digits(s);
    if d.len() > 0 && all_digits(d) && 1 <= decimal_value(d) <= 65535 {
        Some(decimal_value(d) as u16)
    } else {
        None
    }
}

/// The comma-separated fields of `s`; an empty `s` is one empty field.
pub open spec fn split_commas(s: Seq<u8>) -> Seq<Seq<u8>>
    decreases s.len(),
{
    if s.len() == 0 {
        seq![Seq::empty()]
    } else {
        let f = split_commas(s.drop_last());
        if s.last() == 44 {
            f.push(Seq::empty())
        } else {
            f.update(f.len() - 1, f.last().push(s.last()))
        }
    }
}

/// The ports of an explicit list, if every entry names a port.
pub open spec fn ports_of_list(s: Seq<u8>) -> Option<Seq<u16>> {
    let fields = split_commas(s);
    if forall|k: int| 0 <= k < fields.len() ==> (#[trigger] port_of_entry(fields[k])) is Some {
        Some(fields.map_values(|f: Seq<u8>| port_of_entry(f)->0))
    } else {
        None
    }
}

/// Every port from 1 to 65534, in order.
pub open spec fn all_ports() -> Seq<u16> {
    Seq::new(65534, |i: int| (i + 1) as u16)
}

/// The port list that a selection argument stands for: `all`, the preset
/// for `top` or an empty argument, else an explicit comma-separated list.
pub open spec fn selected_ports(arg: Seq<u8>, preset: Seq<u16>) -> Result<Seq<u16>, ConfigError> {
    if arg == seq![97u8, 108, 108] {
        Ok(all_ports())
    } else if arg == seq![116u8, 111, 112] || arg.len() == 0 {
        Ok(preset)
    } else {
        match ports_of_list(arg) {
            Some(p) => Ok(p),
            None => Err(ConfigError::InvalidPortList),
        }
    }
}

proof fn lemma_field_count(s: Seq<u8>)
    ensures
        split_commas(s).len() >= 1,
    decreases s.len(),
{
    if s.len() > 0 {
        lemma_field_count(s.drop_last());
    }
}

/// Splits `s` at every comma.
fn split_fields(s: &[u8]) -> (r: Vec<Vec<u8>>)
    ensures
        r@.map_values(|f: Vec<u8>| f@) == split_commas(s@),
{
    let mut done: Vec<Vec<u8>> = Vec::new();
    let mut cur: Vec<u8> = Vec::new();
    let mut i: usize = 0;
    proof {
        assert(s@.take(0) =~= Seq::<u8>::empty());
    }
    while i < s.len()
        invariant
            i <= s@.len(),
            done@.map_values(|f: Vec<u8>| f@).push(cur@) == split_commas(s@.take(i as int)),
        decreases s@.len() - i,
    {
        let ghost prev = done@.map_values(|f: Vec<u8>| f@).push(cur@);
        proof {
            assert(s@.take(i + 1).drop_last() =~= s@.take(i as int));
            lemma_field_count(s@.take(i as int));
        }
        if s[i] == 44u8 {
            let ghost before = done@;
            done.push(cur);
            cur = Vec::new();
            proof {
                assert(done@.map_values(|f: Vec<u8>| f@) =~= before.map_values(|f: Vec<u8>| f@).push(
                    prev.last(),
                ));
                assert(done@.map_values(|f: Vec<u8>| f@).push(cur@) =~= prev.push(Seq::empty()));
            }
        } else {
            cur.push(s[i]);
            proof {
                assert(done@.map_values(|f: Vec<u8>| f@).push(cur@) =~= prev.update(
                    prev.len() - 1,
                    prev.last().push(s@[i as int]),
                ));
            }
        }
        i = i + 1;
    }
    proof {
        assert(s@.take(s@.len() as int) =~= s@);
    }
    let ghost before = done@;
    done.push(cur);
    proof {
        assert(done@.map_values(|f: Vec<u8>| f@) =~= before.map_values(|f: Vec<u8>| f@).push(
            cur@,
        ));
    }
    done
}

/// The port an entry of an explicit list names, if any.
fn parse_port_entry(f: &Vec<u8>) -> (r: Option<u16>)
    ensures
        r == port_of_entry(f@),
{
    let n = f.len();
    let start: usize = if n > 0 && f[0] == 43u8 {
        1
    } else {
        0
    };
    let ghost d = entry_digits(f@);
    proof {
        assert(d =~= f@.subrange(start as int, n as int));
    }
    if start == n {
        return None;
    }
    let mut acc: u32 = 0;
    let mut i: usize = start;
    proof {
        assert(d.take(0) =~= Seq::<u8>::empty());
    }
    while i < n
        invariant
            n == f@.len(),
            start <= i <= n,
            d == f@.subrange(start as int, n as int),
            d == entry_digits(f@),
            all_digits(d.take(i - start)),
            acc as nat == if decimal_value(d.take(i - start)) < 65536 {
                decimal_value(d.take(i - start))
            } else {
                65536
            },
        decreases n - i,
    {
        let c = f[i];
        if c < 48u8 || c > 57u8 {
            proof {
                assert(d[i - start] == c);
                assert(!is_digit(d[i - start]));
                assert(!all_digits(d));
            }
            return None;
        }
        let ghost v = decimal_value(d.take(i - start));
        proof {
            assert(d.take(i - start + 1).drop_last() =~= d.take(i - start));
            assert(d.take(i - start + 1).last() == c);
        }
        let digit: u32 = (c - 48u8) as u32;
        if acc >= 6554 {
            acc = 65536;
            proof {
                assert(v * 10 + digit >= 65536) by (nonlinear_arith)
                    requires
                        v >= 6554,
                ;
            }
        } else {
            acc = acc * 10 + digit;
            if acc > 65536 {
                acc = 65536;
            }
        }
        i = i + 1;
        proof {
            assert forall|k: int| 0 <= k < d.take(i - start).len() implies is_digit(
                #[trigger] d.take(i - start)[k],
            ) by {
                if k < i - 1 - start {
                    assert(d.take(i - start)[k] == d.take(i - 1 - start)[k]);
                }
            }
        }
    }
    proof {
        assert(d.take(n - start) =~= d);
    }
    if acc == 0 || acc > 65535 {
        None
    } else {
        Some(acc as u16)
    }
}

fn copy_ports(v: &Vec<u16>) -> (r: Vec<u16>)
    ensures
        r@ == v@,
{
    let mut r: Vec<u16> = Vec::new();
    let mut i: usize = 0;
    while i < v.len()
        invariant
            i <= v@.len(),
            r@ == v@.take(i as int),
        decreases v@.len() - i,
    {
        r.push(v[i]);
        i = i + 1;
        assert(r@ =~= v@.take(i as int));
    }
    assert(v@.take(v@.len() as int) =~= v@);
    r
}

fn every_port() -> (r: Vec<u16>)
    ensures
        r@ == all_ports(),
{
    let mut r: Vec<u16> = Vec::new();
    let mut p: u32 = 1;
    while p < 65535
        invariant
            1 <= p <= 65535,
            r@ == all_ports().take(p - 1),
        decreases 65535 - p,
    {
        r.push(p as u16);
        p = p + 1;
        assert(r@ =~= all_ports().take(p - 1));
    }
    assert(all_ports().take(65534) =~= all_ports());
    r
}

/// The port list that the selection argument `arg` stands for, with
/// `preset` as the curated list.
pub fn resolve_ports(arg: &str, preset: &Vec<u16>) -> (r: Result<Vec<u16>, ConfigError>)
    ensures
        match r {
            Ok(v) => selected_ports(arg.spec_bytes(), preset@) == Ok::<Seq<u16>, ConfigError>(v@),
            Err(e) => selected_ports(arg.spec_bytes(), preset@) == Err::<Seq<u16>, ConfigError>(e),
        },
{
    let b = arg.as_bytes();
    if b.len() == 3 && b[0] == 97u8 && b[1] == 108u8 && b[2] == 108u8 {
        assert(b@ =~= seq![97u8, 108, 108]);
        return Ok(every_port());
    }
    assert(b@ != seq![97u8, 108, 108]);
    if b.len() == 0 || (b.len() == 3 && b[0] == 116u8 && b[1] == 111u8 && b[2] == 112u8) {
        assert(b@.len() == 0 || b@ =~= seq![116u8, 111, 112]);
        return Ok(copy_ports(preset));
    }
    assert(b@ != seq![116u8, 111, 112]);
    let fields = split_fields(b);
    let ghost fv = fields@.map_values(|f: Vec<u8>| f@);
    let mut ports: Vec<u16> = Vec::new();
    let mut i: usize = 0;
    while i < fields.len()
        invariant
            fv == fields@.map_values(|f: Vec<u8>| f@),
            fv == split_commas(b@),
            b@ == arg.spec_bytes(),
            b@.len() != 0,
            b@ != seq![97u8, 108, 108],
            b@ != seq![116u8, 111, 112],
            i <= fields@.len(),
            ports@.len() == i,
            forall|k: int| 0 <= k < i ==> (#[trigger] port_of_entry(fv[k])) is Some,
            forall|k: int| 0 <= k < i ==> ports@[k] == #[trigger] port_of_entry(fv[k])->0,
        decreases fields@.len() - i,
    {
        match parse_port_entry(&fields[i]) {
            Some(p) => {
                ports.push(p);
            },
            None => {
                assert(port_of_entry(fv[i as int]) is None);
                assert(!(forall|k: int|
                    0 <= k < fv.len() ==> (#[trigger] port_of_entry(fv[k])) is Some));
                assert(ports_of_list(b@) is None);
                return Err(ConfigError::InvalidPortList);
            },
        }
        i = i + 1;
    }
    assert(ports@ =~= fv.map_values(|f: Seq<u8>| port_of_entry(f)->0));
    Ok(ports)
}

/// A name for what parse_duration::parse makes of a text: whole seconds
/// and the nanoseconds beyond them, or nothing if it is no duration.
pub uninterp spec fn parsed_duration(text: Seq<char>) -> Option<(u64, u32)>;

/// Relies on parse_duration::parse for reading a human-readable duration
/// ("2s", "1 min 30 s", "500ms"), and on std's Duration for splitting it
/// into whole seconds and a sub-second part below one billion nanoseconds.
#[verifier::external_body]
fn parse_duration_text(text: &str) -> (r: Option<(u64, u32)>)
    ensures
        r == parsed_duration(text@),
        r matches Some(d) ==> d.1 < 1_000_000_000,
{
    match parse_duration::parse(text) {
        Ok(d) => Some((d.as_secs(), d.subsec_nanos())),
        Err(_) => None,
    }
}

/// The wait bound that a parsed duration gives: it must be a duration,
/// and not zero.
pub open spec fn wait_bound_of(parsed: Option<(u64, u32)>) -> Result<WaitBound, ConfigError> {
    match parsed {
        None => Err(ConfigError::InvalidDuration),
        Some((secs, nanos)) => if nanos >= 1_000_000_000 {
            Err(ConfigError::InvalidDuration)
        } else if secs == 0 && nanos == 0 {
            Err(ConfigError::ZeroDuration)
        } else {
            Ok(WaitBound { secs, nanos })
        },
    }
}

/// Checks a parsed duration as a wait bound.
pub fn wait_bound_from(parsed: Option<(u64, u32)>) -> (r: Result<WaitBound, ConfigError>)
    ensures
        r == wait_bound_of(parsed),
{
    match parsed {
        None => Err(ConfigError::InvalidDuration),
        Some((secs, nanos)) => {
            if nanos >= 1_000_000_000 {
                Err(ConfigError::InvalidDuration)
            } else if secs == 0 && nanos == 0 {
                Err(ConfigError::ZeroDuration)
            } else {
                Ok(WaitBound { secs, nanos })
            }
        },
    }
}

/// Reads the wait bound from a human-readable duration.
pub fn parse_wait_bound(text: &str) -> (r: Result<WaitBound, ConfigError>)
    ensures
        r == wait_bound_of(parsed_duration(text@)),
        r matches Ok(w) ==> w.nanos < 1_000_000_000 && (w.secs > 0 || w.nanos > 0),
{
    wait_bound_from(parse_duration_text(text))
}

/// Builds a scan plan from the port selection, the curated preset, the
/// chunk size and the wait bound's text. The wait bound is checked first,
/// then the port selection, then the chunk size.
pub fn plan_scan(ports_arg: &str, preset: &Vec<u16>, chunk_size: usize, timeout_arg: &str) -> (r:
    Result<ScanPlan, ConfigError>)
    ensures
        wait_bound_of(parsed_duration(timeout_arg@)) matches Err(e) ==> r == Err::<
            ScanPlan,
            ConfigError,
        >(e),
        wait_bound_of(parsed_duration(timeout_arg@)) is Ok ==> (selected_ports(
            ports_arg.spec_bytes(),
            preset@,
        ) matches Err(e) ==> r == Err::<ScanPlan, ConfigError>(e)),
        wait_bound_of(parsed_duration(timeout_arg@)) is Ok && selected_ports(
            ports_arg.spec_bytes(),
            preset@,
        ) is Ok && chunk_size == 0 ==> r == Err::<ScanPlan, ConfigError>(
            ConfigError::ZeroChunkSize,
        ),
        r matches Ok(plan) ==> {
            &&& wait_bound_of(parsed_duration(timeout_arg@)) == Ok::<WaitBound, ConfigError>(
                plan.wait,
            )
            &&& selected_ports(ports_arg.spec_bytes(), preset@) == Ok::<Seq<u16>, ConfigError>(
                plan.ports@,
            )
            &&& plan.chunk_size == chunk_size
            &&& chunk_size > 0
        },
        r is Ok <==> (wait_bound_of(parsed_duration(timeout_arg@)) is Ok && selected_ports(
            ports_arg.spec_bytes(),
            preset@,
        ) is Ok && chunk_size > 0),
{
    let wait = match parse_wait_bound(timeout_arg) {
        Ok(w) => w,
        Err(e) => {
            return Err(e);
        },
    };
    let ports = match resolve_ports(ports_arg, preset) {
        Ok(p) => p,
        Err(e) => {
            return Err(e);
        },
    };
    if chunk_size == 0 {
        return Err(ConfigError::ZeroChunkSize);
    }
    Ok(ScanPlan { ports, chunk_size, wait })
}

} // verus!
