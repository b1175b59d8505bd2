//! A reading, the name of the host that reports it, and the record it is
//! exchanged as.

use crate::metric::{Metric, Unit};
use crate::scan::{digits_value, is_digit};
use crate::text::{
    fixed_point, lemma_zero_padded_reads_back, push_fixed_point, push_quoted, push_signed,
    push_zero_padded, quoted, signed_decimal, zero_padded,
};
use vstd::prelude::*;
use vstd::string::StringExecFns;

verus! {

/// Number of hosts that share a rack.
pub const HOSTS_PER_RACK: usize = 30;

/// The name of the host at a position in its zone: hosts and racks are
/// numbered from one, with two digits at least; thirty hosts share a rack.
pub open spec fn host_label(index: nat) -> Seq<char> {
    "srv-"@ + zero_padded(index + 1, 2) + "-rack-"@ + zero_padded(
        index / (HOSTS_PER_RACK as nat) + 1,
        2,
    )
}

/// No two hosts of a zone share a name.
pub proof fn lemma_host_labels_differ(a: nat, b: nat)
    requires
        a != b,
    ensures
        host_label(a) != host_label(b),
{
    let rack = HOSTS_PER_RACK as nat;
    let (na, nb) = (zero_padded(a + 1, 2), zero_padded(b + 1, 2));
    let (ra, rb) = ("-rack-"@ + zero_padded(a / rack + 1, 2), "-rack-"@ + zero_padded(
        b / rack + 1,
        2,
    ));
    lemma_zero_padded_reads_back(a + 1, 2);
    lemma_zero_padded_reads_back(b + 1, 2);
    reveal_strlit("srv-");
    reveal_strlit("-rack-");
    if host_label(a) == host_label(b) {
        let (la, lb) = (host_label(a), host_label(b));
        assert(la =~= "srv-"@ + (na + ra));
        assert(lb =~= "srv-"@ + (nb + rb));
        assert(ra[0] == '-' && rb[0] == '-');
        // Where one number ended before the other, a hyphen would stand
        // against a digit.
        if na.len() < nb.len() {
            assert(la[4 + na.len() as int] == ra[0]);
            assert(lb[4 + na.len() as int] == nb[na.len() as int]);
            assert(is_digit(nb[na.len() as int]));
        } else if nb.len() < na.len() {
            assert(lb[4 + nb.len() as int] == rb[0]);
            assert(la[4 + nb.len() as int] == na[nb.len() as int]);
            assert(is_digit(na[nb.len() as int]));
        } else {
            assert forall|i: int| 0 <= i < na.len() implies na[i] == nb[i] by {
                assert(la[4 + i] == na[i]);
                assert(lb[4 + i] == nb[i]);
            }
            assert(na =~= nb);
            assert(digits_value(na) == digits_value(nb));
        }
    }
}

/// Gives the name of the host at a position in its zone.
pub fn host_id(index: usize) -> (id: String)
    ensures
        id@ == host_label(index as nat),
{
    let mut id: String = String::new();
    id.append("srv-");
    push_zero_padded(&mut id, index as u128 + 1, 2);
    id.append("-rack-");
    push_zero_padded(&mut id, (index / HOSTS_PER_RACK) as u128 + 1, 2);
    assert(id@ =~= host_label(index as nat));
    id
}

/// The name of the zone at a position among the zones: the letters of the
/// alphabet from `A` on, and after them the characters that follow `Z`.
pub open spec fn zone_label(index: nat) -> Seq<char> {
    "zone-"@ + seq![((65 + index % 256) as u8) as char]
}

/// Gives the name of the zone at a position among the zones.
///
/// The position, taken modulo 256, has to leave room for the letter `A` before
/// it in a byte.
pub fn zone_name(index: usize) -> (name: String)
    requires
        index % 256 < 191,
    ensures
        name@ == zone_label(index as nat),
{
    let mut name: String = String::new();
    name.append("zone-");
    let letter: u8 = 65 + (index % 256) as u8;
    name.push(letter as char);
    assert(name@ =~= zone_label(index as nat));
    name
}

/// One value of one metric, reported by one host at one instant.
#[derive(Debug)]
pub struct Reading {
    /// What tells this reading from every other.
    pub event_id: String,
    pub host_id: String,
    pub zone: String,
    /// Milliseconds since the epoch.
    pub timestamp: i64,
    pub metric: Metric,
    /// Millionths of the metric's unit.
    pub value: i64,
}

/// A reading as the contracts see it.
pub struct ReadingView {
    pub event_id: Seq<char>,
    pub host_id: Seq<char>,
    pub zone: Seq<char>,
    pub timestamp: int,
    pub metric: Metric,
    pub value: int,
}

impl View for Reading {
    type V = ReadingView;

    open spec fn view(&self) -> ReadingView {
        ReadingView {
            event_id: self.event_id@,
            host_id: self.host_id@,
            zone: self.zone@,
            timestamp: self.timestamp as int,
            metric: self.metric,
            value: self.value as int,
        }
    }
}

/// The record a reading is exchanged as: one object with the fields in this
/// order, the value as a decimal number, and no tags.
pub open spec fn record_text(r: ReadingView) -> Seq<char> {
    "{\"event_id\":"@ + quoted(r.event_id) + ",\"host_id\":"@ + quoted(r.host_id) + ",\"zone\":"@
        + quoted(r.zone) + ",\"timestamp\":"@ + signed_decimal(r.timestamp) + ",\"metric\":"@
        + quoted(r.metric.name_spec()) + ",\"value\":"@ + fixed_point(r.value) + ",\"unit\":"@
        + quoted(r.metric.unit_spec().symbol_spec()) + ",\"tags\":{}}"@
}

impl Reading {
    /// The unit the value is in.
    pub fn unit(&self) -> (u: Unit)
        ensures
            u == self.metric.unit_spec(),
    {
        self.metric.unit()
    }

    /// Writes the reading as the record it is exchanged as.
    pub fn to_json(&self) -> (text: String)
        ensures
            text@ == record_text(self@),
    {
        let mut text: String = String::new();
        text.append("{\"event_id\":");
        push_quoted(&mut text, self.event_id.as_str());
        text.append(",\"host_id\":");
        push_quoted(&mut text, self.host_id.as_str());
        text.append(",\"zone\":");
        push_quoted(&mut text, self.zone.as_str());
        text.append(",\"timestamp\":");
        push_signed(&mut text, self.timestamp);
        text.append(",\"metric\":");
        push_quoted(&mut text, self.metric.name());
        text.append(",\"value\":");
        push_fixed_point(&mut text, self.value);
        text.append(",\"unit\":");
        push_quoted(&mut text, self.metric.unit().symbol());
        text.append(",\"tags\":{}}");
        assert(text@ =~= record_text(self@));
        text
    }
}

/// A reading ready to be sent: the record, and the name of the host to send
/// it under.
#[derive(Debug)]
pub struct ServerMetric {
    pub message: String,
    pub host_id: String,
}

} // verus!
