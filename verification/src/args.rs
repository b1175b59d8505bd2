//! The options of the generator, and the broker addresses it may be given.

use crate::scan::{
    find, first_index, lemma_first_index, parse_unsigned, string_from, trim_bounds, trimmed, unsigned_up_to,
};
use crate::text::{chars_of, same_text};
use vstd::prelude::*;

verus! {

/// The pause between two readings, in milliseconds, where none is given.
pub const DEFAULT_TIMEOUT: u64 = 500;

/// The number of zones where none is given.
pub const DEFAULT_ZONES: usize = 4;

/// The number of hosts in a zone where none is given.
pub const DEFAULT_SERVERS_PER_ZONE: usize = 100;

/// Where the readings go.
#[derive(Clone, Copy, Debug, PartialEq, Eq, Structural)]
pub enum Mode {
    Stdout,
    Kafka,
}

/// The options of a run.
#[derive(Debug)]
pub struct Args {
    pub mode: Mode,
    /// The topic the readings are sent to; given whenever the mode is `Kafka`.
    pub topic: Option<String>,
    /// The brokers the readings are sent to; given whenever the mode is `Kafka`.
    pub address: Option<String>,
    /// The pause between two readings, in milliseconds.
    pub timeout: u64,
    pub zones: usize,
    pub servers_per_zone: usize,
}

/// The options as they were written, each one absent or a text yet to be read.
#[derive(Debug)]
pub struct RawArgs {
    pub mode: Option<String>,
    pub topic: Option<String>,
    pub address: Option<String>,
    pub timeout: Option<String>,
    pub zones: Option<String>,
    pub servers_per_zone: Option<String>,
}

/// Why a set of options cannot be taken.
#[derive(Clone, Copy, Debug, PartialEq, Eq, Structural)]
pub enum ArgsError {
    /// No mode is given.
    MissingMode,
    /// The mode is neither `stdout` nor `kafka`.
    UnknownMode,
    /// The pause is no number that fits 64 bits.
    InvalidTimeout,
    /// The number of zones is no number that fits a `usize`.
    InvalidZones,
    /// The number of hosts is no number that fits a `usize`.
    InvalidServersPerZone,
    /// The mode is `kafka` and no topic is given.
    MissingTopic,
    /// The mode is `kafka` and no address is given.
    MissingAddress,
}

/// The options of a run, as the contracts see them.
pub struct ArgsView {
    pub mode: Mode,
    pub topic: Option<Seq<char>>,
    pub address: Option<Seq<char>>,
    pub timeout: nat,
    pub zones: nat,
    pub servers_per_zone: nat,
}

/// The options as they were written, as the contracts see them.
pub struct RawArgsView {
    pub mode: Option<Seq<char>>,
    pub topic: Option<Seq<char>>,
    pub address: Option<Seq<char>>,
    pub timeout: Option<Seq<char>>,
    pub zones: Option<Seq<char>>,
    pub servers_per_zone: Option<Seq<char>>,
}

/// The characters of a text that may be absent.
pub open spec fn text_of(text: Option<String>) -> Option<Seq<char>> {
    match text {
        Some(t) => Some(t@),
        None => None,
    }
}

impl View for Args {
    type V = ArgsView;

    open spec fn view(&self) -> ArgsView {
        ArgsView {
            mode: self.mode,
            topic: text_of(self.topic),
            address: text_of(self.address),
            timeout: self.timeout as nat,
            zones: self.zones as nat,
            servers_per_zone: self.servers_per_zone as nat,
        }
    }
}

impl View for RawArgs {
    type V = RawArgsView;

    open spec fn view(&self) -> RawArgsView {
        RawArgsView {
            mode: text_of(self.mode),
            topic: text_of(self.topic),
            address: text_of(self.address),
            timeout: text_of(self.timeout),
            zones: text_of(self.zones),
            servers_per_zone: text_of(self.servers_per_zone),
        }
    }
}

/// The mode of a name.
pub open spec fn mode_named(name: Seq<char>) -> Option<Mode> {
    if name == "stdout"@ {
        Some(Mode::Stdout)
    } else if name == "kafka"@ {
        Some(Mode::Kafka)
    } else {
        None
    }
}

/// The number an option stands for: the one written, where it is a number no
/// greater than `max`, or the default where nothing is written.
pub open spec fn number_or(text: Option<Seq<char>>, default: nat, max: nat) -> Option<nat> {
    match text {
        Some(t) => unsigned_up_to(t, max),
        None => Some(default),
    }
}

/// What a set of written options comes to: the options of a run, or the first
/// thing that is wrong with them, looked for in this order: the mode, the
/// pause, the number of zones, the number of hosts, the topic, the address.
pub open spec fn parsed(raw: RawArgsView) -> Result<ArgsView, ArgsError> {
    if raw.mode is None {
        Err(ArgsError::MissingMode)
    } else if mode_named(raw.mode->0) is None {
        Err(ArgsError::UnknownMode)
    } else if number_or(raw.timeout, DEFAULT_TIMEOUT as nat, u64::MAX as nat) is None {
        Err(ArgsError::InvalidTimeout)
    } else if number_or(raw.zones, DEFAULT_ZONES as nat, usize::MAX as nat) is None {
        Err(ArgsError::InvalidZones)
    } else if number_or(raw.servers_per_zone, DEFAULT_SERVERS_PER_ZONE as nat, usize::MAX as nat)
        is None {
        Err(ArgsError::InvalidServersPerZone)
    } else if mode_named(raw.mode->0) == Some(Mode::Kafka) && raw.topic is None {
        Err(ArgsError::MissingTopic)
    } else if mode_named(raw.mode->0) == Some(Mode::Kafka) && raw.address is None {
        Err(ArgsError::MissingAddress)
    } else {
        Ok(
            ArgsView {
                mode: mode_named(raw.mode->0)->0,
                topic: raw.topic,
                address: raw.address,
                timeout: number_or(raw.timeout, DEFAULT_TIMEOUT as nat, u64::MAX as nat)->0,
                zones: number_or(raw.zones, DEFAULT_ZONES as nat, usize::MAX as nat)->0,
                servers_per_zone: number_or(
                    raw.servers_per_zone,
                    DEFAULT_SERVERS_PER_ZONE as nat,
                    usize::MAX as nat,
                )->0,
            },
        )
    }
}

impl Mode {
    /// Looks a mode up by its name.
    pub fn from_name(name: &str) -> (mode: Option<Mode>)
        ensures
            mode == mode_named(name@),
    {
        if same_text(name, "stdout") {
            Some(Mode::Stdout)
        } else if same_text(name, "kafka") {
            Some(Mode::Kafka)
        } else {
            None
        }
    }
}

/// Reads an option as a number no greater than `max`, or takes the default
/// where nothing is written.
fn read_number(text: &Option<String>, default: u64, max: u64) -> (value: Option<u64>)
    requires
        default <= max,
    ensures
        value is Some == number_or(text_of(*text), default as nat, max as nat) is Some,
        value matches Some(v) ==> number_or(text_of(*text), default as nat, max as nat) == Some(
            v as nat,
        ) && v <= max,
{
    match text {
        Some(t) => {
            let chars: Vec<char> = chars_of(t.as_str());
            assert(chars@.subrange(0, chars@.len() as int) =~= chars@);
            parse_unsigned(&chars, 0, chars.len(), max)
        },
        None => Some(default),
    }
}

/// Reads the options of a run from the options as they were written.
pub fn parse(raw: RawArgs) -> (r: Result<Args, ArgsError>)
    ensures
        match r {
            Ok(args) => parsed(raw@) == Ok::<ArgsView, ArgsError>(args@),
            Err(e) => parsed(raw@) == Err::<ArgsView, ArgsError>(e),
        },
{
    let mode: Mode = match &raw.mode {
        None => {
            return Err(ArgsError::MissingMode);
        },
        Some(name) => match Mode::from_name(name.as_str()) {
            None => {
                return Err(ArgsError::UnknownMode);
            },
            Some(mode) => mode,
        },
    };
    let timeout: u64 = match read_number(&raw.timeout, DEFAULT_TIMEOUT, u64::MAX) {
        None => {
            return Err(ArgsError::InvalidTimeout);
        },
        Some(v) => v,
    };
    let zones: usize = match read_number(&raw.zones, DEFAULT_ZONES as u64, usize::MAX as u64) {
        None => {
            return Err(ArgsError::InvalidZones);
        },
        Some(v) => v as usize,
    };
    let servers_per_zone: usize = match read_number(
        &raw.servers_per_zone,
        DEFAULT_SERVERS_PER_ZONE as u64,
        usize::MAX as u64,
    ) {
        None => {
            return Err(ArgsError::InvalidServersPerZone);
        },
        Some(v) => v as usize,
    };
    if mode == Mode::Kafka && raw.topic.is_none() {
        return Err(ArgsError::MissingTopic);
    }
    if mode == Mode::Kafka && raw.address.is_none() {
        return Err(ArgsError::MissingAddress);
    }
    Ok(Args { mode, topic: raw.topic, address: raw.address, timeout, zones, servers_per_zone })
}

/// The address of a broker.
#[derive(Debug)]
pub struct BrokerAddress {
    pub host: String,
    pub port: u16,
}

/// The address of a broker, as the contracts see it.
pub struct BrokerView {
    pub host: Seq<char>,
    pub port: nat,
}

impl View for BrokerAddress {
    type V = BrokerView;

    open spec fn view(&self) -> BrokerView {
        BrokerView { host: self.host@, port: self.port as nat }
    }
}

/// Why a text is no list of broker addresses.
#[derive(Clone, Copy, Debug, PartialEq, Eq, Structural)]
pub enum BrokerError {
    /// An address has no colon between host and port.
    MissingPort,
    /// What follows the colon is no number that fits 16 bits.
    InvalidPort,
}

/// The address that one piece of a list stands for: with the white space
/// around the piece set aside, the host is what comes before the first colon
/// and the port is the number after it.
pub open spec fn broker_of(piece: Seq<char>) -> Result<BrokerView, BrokerError> {
    let text = trimmed(piece);
    match first_index(text, ':') {
        None => Err(BrokerError::MissingPort),
        Some(colon) => match unsigned_up_to(text.skip(colon + 1), u16::MAX as nat) {
            None => Err(BrokerError::InvalidPort),
            Some(port) => Ok(BrokerView { host: text.take(colon), port }),
        },
    }
}

/// The addresses that follow those already read, or the error that ends the
/// reading.
pub open spec fn followed_by(
    done: Seq<BrokerView>,
    rest: Result<Seq<BrokerView>, BrokerError>,
) -> Result<Seq<BrokerView>, BrokerError> {
    match rest {
        Ok(more) => Ok(done + more),
        Err(e) => Err(e),
    }
}

/// The addresses that a list stands for, piece by piece between the commas,
/// or what is wrong with the first piece that is no address.
pub open spec fn brokers_in(list: Seq<char>) -> Result<Seq<BrokerView>, BrokerError>
    decreases list.len(),
{
    match first_index(list, ',') {
        None => match broker_of(list) {
            Ok(broker) => Ok(seq![broker]),
            Err(e) => Err(e),
        },
        Some(comma) => {
            proof {
                lemma_first_index(list, ',');
            }
            match broker_of(list.take(comma)) {
                Ok(broker) => followed_by(seq![broker], brokers_in(list.skip(comma + 1))),
                Err(e) => Err(e),
            }
        },
    }
}

/// The addresses as the contracts see them.
pub open spec fn broker_views(list: Seq<BrokerAddress>) -> Seq<BrokerView> {
    Seq::new(list.len(), |i: int| list[i]@)
}

impl BrokerError {
    /// What to tell the user.
    pub fn message(self) -> (text: &'static str)
        ensures
            text@ == match self {
                BrokerError::MissingPort => "Kafka broker address must be in format: <HOST:PORT>"@,
                BrokerError::InvalidPort => "Invalid port number"@,
            },
    {
        match self {
            BrokerError::MissingPort => "Kafka broker address must be in format: <HOST:PORT>",
            BrokerError::InvalidPort => "Invalid port number",
        }
    }
}

/// Reads one address from the characters between `from` and `to`.
fn parse_broker(chars: &Vec<char>, from: usize, to: usize) -> (r: Result<
    BrokerAddress,
    BrokerError,
>)
    requires
        from <= to <= chars@.len(),
    ensures
        match r {
            Ok(broker) => broker_of(chars@.subrange(from as int, to as int)) == Ok::<
                BrokerView,
                BrokerError,
            >(broker@),
            Err(e) => broker_of(chars@.subrange(from as int, to as int)) == Err::<
                BrokerView,
                BrokerError,
            >(e),
        },
{
    let (start, end) = trim_bounds(chars, from, to);
    let ghost text = chars@.subrange(start as int, end as int);
    match find(chars, start, end, ':') {
        None => Err(BrokerError::MissingPort),
        Some(colon) => {
            assert(text.skip(colon - start + 1) =~= chars@.subrange(colon + 1, end as int));
            assert(text.take(colon - start) =~= chars@.subrange(start as int, colon as int));
            match parse_unsigned(chars, colon + 1, end, 65535) {
                None => Err(BrokerError::InvalidPort),
                Some(port) => Ok(
                    BrokerAddress { host: string_from(chars, start, colon), port: port as u16 },
                ),
            }
        },
    }
}

/// Reads a list of broker addresses, each a host and a port with a colon
/// between them, with commas between the addresses.
pub fn parse_kafka_brokers(address_str: &str) -> (r: Result<Vec<BrokerAddress>, BrokerError>)
    ensures
        match r {
            Ok(brokers) => brokers_in(trimmed(address_str@)) == Ok::<
                Seq<BrokerView>,
                BrokerError,
            >(broker_views(brokers@)) && brokers@.len() >= 1,
            Err(e) => brokers_in(trimmed(address_str@)) == Err::<Seq<BrokerView>, BrokerError>(e),
        },
{
    let chars: Vec<char> = chars_of(address_str);
    assert(chars@.subrange(0, chars@.len() as int) =~= chars@);
    let (first, end) = trim_bounds(&chars, 0, chars.len());
    let ghost whole = chars@.subrange(first as int, end as int);
    let mut brokers: Vec<BrokerAddress> = Vec::new();
    let mut start: usize = first;
    assert(broker_views(brokers@) =~= Seq::<BrokerView>::empty());
    assert(brokers_in(whole) is Ok ==> Seq::<BrokerView>::empty() + brokers_in(whole)->Ok_0
        =~= brokers_in(whole)->Ok_0);
    loop
        invariant
            first <= start <= end <= chars@.len(),
            whole == chars@.subrange(first as int, end as int),
            whole == trimmed(address_str@),
            brokers_in(whole) == followed_by(
                broker_views(brokers@),
                brokers_in(chars@.subrange(start as int, end as int)),
            ),
        decreases end - start,
    {
        let ghost rest = chars@.subrange(start as int, end as int);
        let ghost done = broker_views(brokers@);
        let comma: Option<usize> = find(&chars, start, end, ',');
        let stop: usize = match comma {
            Some(at) => at,
            None => end,
        };
        proof {
            lemma_first_index(rest, ',');
            if comma is Some {
                assert(rest.take(stop - start) =~= chars@.subrange(start as int, stop as int));
                assert(rest.skip(stop - start + 1) =~= chars@.subrange(stop + 1, end as int));
            } else {
                assert(rest =~= chars@.subrange(start as int, stop as int));
            }
        }
        match parse_broker(&chars, start, stop) {
            Err(e) => {
                return Err(e);
            },
            Ok(broker) => {
                let ghost view = broker@;
                brokers.push(broker);
                proof {
                    assert(broker_views(brokers@) =~= done + seq![view]);
                    if comma is Some {
                        let tail = brokers_in(chars@.subrange(stop + 1, end as int));
                        assert(brokers_in(rest) == followed_by(seq![view], tail));
                        if tail is Ok {
                            assert(done + (seq![view] + tail->Ok_0) =~= (done + seq![view])
                                + tail->Ok_0);
                        }
                    } else {
                        assert(brokers_in(rest) == Ok::<Seq<BrokerView>, BrokerError>(seq![view]));
                    }
                }
            },
        }
        if comma.is_none() {
            return Ok(brokers);
        }
        start = stop + 1;
    }
}

} // verus!
