//! Host settings and their reconciliation with the chip.

use crate::bus::{in_turn, last_accepted, Bus, Exchange, Frame};
use crate::net::{Ipv4Address, MacAddress};
use crate::register;
use vstd::prelude::*;
use vstd::std_specs::cmp::PartialEqSpecImpl;

mod manual;

pub use self::manual::Manual;

verus! {

/// The network identity of the chip, as last known or as wanted.
#[derive(Debug, Clone, Copy, Eq)]
pub struct HostConfig {
    pub mac: MacAddress,
    pub ip: Ipv4Address,
    pub gateway: Ipv4Address,
    pub subnet: Ipv4Address,
}

impl PartialEqSpecImpl for HostConfig {
    open spec fn obeys_eq_spec() -> bool {
        true
    }

    open spec fn eq_spec(&self, other: &Self) -> bool {
        *self == *other
    }
}

impl PartialEq for HostConfig {
    fn eq(&self, other: &Self) -> (r: bool) {
        self.mac == other.mac && self.ip == other.ip && self.gateway == other.gateway
            && self.subnet == other.subnet
    }
}

impl Default for HostConfig {
    /// The configuration of a chip that was never set up: every address is
    /// all zeroes.
    fn default() -> (config: HostConfig)
        ensures
            config.is_unspecified(),
    {
        HostConfig {
            mac: MacAddress::default(),
            ip: Ipv4Address::unspecified(),
            gateway: Ipv4Address::unspecified(),
            subnet: Ipv4Address::unspecified(),
        }
    }
}

/// One of the four settings of a host. The chip receives them in the order
/// in which they stand here.
pub enum Field {
    Gateway,
    Subnet,
    Mac,
    Ip,
}

impl Field {
    /// Offset of the setting's register within the common register block.
    pub open spec fn register(self) -> u16 {
        match self {
            Field::Gateway => register::common::GATEWAY,
            Field::Subnet => register::common::SUBNET_MASK,
            Field::Mac => register::common::MAC,
            Field::Ip => register::common::IP,
        }
    }

    /// Number of bytes that the setting's register holds.
    pub open spec fn width(self) -> nat {
        match self {
            Field::Mac => 6,
            _ => 4,
        }
    }

    /// Place of the setting in the write order, counted from zero.
    pub open spec fn place(self) -> nat {
        match self {
            Field::Gateway => 0,
            Field::Subnet => 1,
            Field::Mac => 2,
            Field::Ip => 3,
        }
    }
}

/// The sequence that holds `field` if `wanted`, and nothing otherwise.
pub open spec fn only_if(wanted: bool, field: Field) -> Seq<Field> {
    if wanted {
        seq![field]
    } else {
        Seq::empty()
    }
}

impl HostConfig {
    /// Whether no setting was made yet: every address is all zeroes.
    pub open spec fn is_unspecified(self) -> bool {
        &&& self.mac.octets@ == seq![0u8, 0u8, 0u8, 0u8, 0u8, 0u8]
        &&& self.ip.octets@ == seq![0u8, 0u8, 0u8, 0u8]
        &&& self.gateway.octets@ == seq![0u8, 0u8, 0u8, 0u8]
        &&& self.subnet.octets@ == seq![0u8, 0u8, 0u8, 0u8]
    }

    /// The bytes of one setting, in the order in which they go to the chip:
    /// first byte of the address first.
    pub open spec fn octets(self, field: Field) -> Seq<u8> {
        match field {
            Field::Gateway => self.gateway.octets@,
            Field::Subnet => self.subnet.octets@,
            Field::Mac => self.mac.octets@,
            Field::Ip => self.ip.octets@,
        }
    }

    /// Whether this configuration is what `history` has left on the chip:
    /// a setting whose register was written holds the bytes that the bus
    /// last accepted for it, and a setting whose register was never written
    /// is all zeroes.
    pub open spec fn mirrors<E>(self, history: Seq<Exchange<E>>) -> bool {
        forall|field: Field|
            self.octets(field) == match #[trigger] last_accepted(
                history,
                register::COMMON,
                field.register(),
            ) {
                Some(bytes) => bytes,
                None => Seq::new(field.width(), |i: int| 0u8),
            }
    }

    /// The frame that writes this configuration's value of `field` to the
    /// chip.
    pub open spec fn frame(self, field: Field) -> Frame {
        Frame { block: register::COMMON, address: field.register(), payload: self.octets(field) }
    }

    /// Whether the two configurations disagree on `field`.
    pub open spec fn differs(self, other: HostConfig, field: Field) -> bool {
        match field {
            Field::Gateway => self.gateway != other.gateway,
            Field::Subnet => self.subnet != other.subnet,
            Field::Mac => self.mac != other.mac,
            Field::Ip => self.ip != other.ip,
        }
    }

    /// The settings on which `self` and `desired` disagree, in write order.
    pub open spec fn changed(self, desired: HostConfig) -> Seq<Field> {
        only_if(self.differs(desired, Field::Gateway), Field::Gateway) + only_if(
            self.differs(desired, Field::Subnet),
            Field::Subnet,
        ) + only_if(self.differs(desired, Field::Mac), Field::Mac) + only_if(
            self.differs(desired, Field::Ip),
            Field::Ip,
        )
    }

    /// How many of the changed settings are written before `field`.
    pub open spec fn rank(self, desired: HostConfig, field: Field) -> int {
        let gateway: int = if self.differs(desired, Field::Gateway) { 1 } else { 0 };
        let subnet: int = if self.differs(desired, Field::Subnet) { 1 } else { 0 };
        let mac: int = if self.differs(desired, Field::Mac) { 1 } else { 0 };
        match field {
            Field::Gateway => 0,
            Field::Subnet => gateway,
            Field::Mac => gateway + subnet,
            Field::Ip => gateway + subnet + mac,
        }
    }

    /// The frames that bring a chip in state `self` to `desired`, in the
    /// order in which they are written: one for each changed setting, with
    /// the desired value.
    pub open spec fn pending(self, desired: HostConfig) -> Seq<Frame> {
        self.changed(desired).map_values(|f: Field| desired.frame(f))
    }

    /// This configuration with `field` taken from `desired`.
    pub open spec fn with(self, desired: HostConfig, field: Field) -> HostConfig {
        match field {
            Field::Gateway => HostConfig { gateway: desired.gateway, ..self },
            Field::Subnet => HostConfig { subnet: desired.subnet, ..self },
            Field::Mac => HostConfig { mac: desired.mac, ..self },
            Field::Ip => HostConfig { ip: desired.ip, ..self },
        }
    }

    /// Whether fewer than `n` changed settings are written before `field`:
    /// of a changed setting this says that it is among the first `n`
    /// changed ones.
    pub open spec fn reached(self, desired: HostConfig, n: int, field: Field) -> bool {
        self.rank(desired, field) < n
    }

    /// The configuration after the first `n` of the pending writes went
    /// through: the first `n` changed settings are as in `desired`, the
    /// others as in `self`.
    pub open spec fn advanced(self, desired: HostConfig, n: int) -> HostConfig {
        HostConfig {
            mac: if self.reached(desired, n, Field::Mac) {
                desired.mac
            } else {
                self.mac
            },
            ip: if self.reached(desired, n, Field::Ip) {
                desired.ip
            } else {
                self.ip
            },
            gateway: if self.reached(desired, n, Field::Gateway) {
                desired.gateway
            } else {
                self.gateway
            },
            subnet: if self.reached(desired, n, Field::Subnet) {
                desired.subnet
            } else {
                self.subnet
            },
        }
    }
}

/// What one reconciliation leaves behind. `before` and `current` are the
/// history of the bus and the cached configuration when it starts, `after`
/// and `updated` the same when it ends, `r` is what it returns.
///
/// The pending writes were attempted from the first on, `n` of them. Each
/// but the last was accepted, and the outcome of the last is `r`. If `r` is
/// `Ok`, all of them were attempted, and `updated` is `settings`. If it is an
/// error, the writes before the refused one were taken over into `updated`,
/// and nothing else was.
pub open spec fn reconciled<E>(
    before: Seq<Exchange<E>>,
    current: HostConfig,
    settings: HostConfig,
    after: Seq<Exchange<E>>,
    updated: HostConfig,
    r: Result<(), E>,
) -> bool {
    let plan = current.pending(settings);
    let n = after.len() - before.len();
    &&& 0 <= n <= plan.len()
    &&& after == before + in_turn(plan.take(n), r)
    &&& match r {
        Ok(_) => n == plan.len() && updated == settings,
        Err(_) => n >= 1 && updated == current.advanced(settings, n - 1),
    }
}

/// Writing one more frame of `plan` lengthens the history of a run of
/// accepted writes by that frame and its outcome.
proof fn lemma_one_more<E>(
    before: Seq<Exchange<E>>,
    plan: Seq<Frame>,
    k: int,
    outcome: Result<(), E>,
)
    requires
        0 <= k < plan.len(),
    ensures
        (before + in_turn::<E>(plan.take(k), Ok(()))).push(
            Exchange { frame: plan[k], outcome },
        ) == before + in_turn(plan.take(k + 1), outcome),
        outcome is Ok ==> outcome == Ok::<(), E>(()),
{
    let left = (before + in_turn::<E>(plan.take(k), Ok(()))).push(
        Exchange { frame: plan[k], outcome },
    );
    let right = before + in_turn(plan.take(k + 1), outcome);
    assert forall|i: int| 0 <= i < left.len() implies left[i] == right[i] by {
        if i >= before.len() {
            let j = i - before.len();
            assert(plan.take(k + 1)[j] == plan[j]);
            if j < k {
                assert(plan.take(k)[j] == plan[j]);
            }
        }
    }
    assert(left =~= right);
    if outcome is Ok {
        assert(outcome->Ok_0 == ());
    }
}

/// What the write of `field` does to the history, whatever the bus answers:
/// where the setting changed, its frame is the pending one that follows
/// those of the settings before it.
proof fn lemma_attempt<E>(
    before: Seq<Exchange<E>>,
    current: HostConfig,
    desired: HostConfig,
    field: Field,
)
    ensures
        0 <= current.rank(desired, field) <= current.pending(desired).len(),
        current.pending(desired).len() == current.rank(desired, Field::Ip) + (if current.differs(
            desired,
            Field::Ip,
        ) {
            1int
        } else {
            0int
        }),
        current.differs(desired, field) ==> {
            let plan = current.pending(desired);
            let k = current.rank(desired, field);
            &&& k < plan.len()
            &&& plan[k] == desired.frame(field)
            &&& forall|outcome: Result<(), E>|
                #![trigger (before + in_turn::<E>(plan.take(k), Ok(()))).push(Exchange { frame: plan[k], outcome })]
                {
                    &&& (before + in_turn::<E>(plan.take(k), Ok(()))).push(
                        Exchange { frame: plan[k], outcome },
                    ) == before + in_turn(plan.take(k + 1), outcome)
                    &&& outcome is Ok ==> outcome == Ok::<(), E>(())
                }
        },
{
    let plan = current.pending(desired);
    let k = current.rank(desired, field);
    if current.differs(desired, field) {
        assert(current.changed(desired)[k] == field);
        assert forall|outcome: Result<(), E>|
            #![trigger (before + in_turn::<E>(plan.take(k), Ok(()))).push(Exchange { frame: plan[k], outcome })]
            {
                &&& (before + in_turn::<E>(plan.take(k), Ok(()))).push(
                    Exchange { frame: plan[k], outcome },
                ) == before + in_turn(plan.take(k + 1), outcome)
                &&& outcome is Ok ==> outcome == Ok::<(), E>(())
            } by {
            lemma_one_more(before, plan, k, outcome);
        }
    }
}

/// A strategy by which the chip comes to its host settings.
pub trait Host {
    /// Gets the settings, if that is necessary, and sets them on the chip.
    ///
    /// How the settings are come by is the strategy's own business. Towards
    /// the bus every strategy behaves alike: it adds to the history and
    /// takes nothing back, and an error that it returns is one that the bus
    /// gave to a write of this call, handed on as it came.
    fn refresh<SpiBus: Bus>(&mut self, bus: &mut SpiBus) -> (r: Result<(), SpiBus::Error>)
        ensures
            old(bus).exchanges().is_prefix_of(final(bus).exchanges()),
            r is Err ==> exists|i: int|
                old(bus).exchanges().len() <= i < final(bus).exchanges().len() && (
                #[trigger] final(bus).exchanges()[i]).outcome == r,
    ;

    /// Writes the settings that changed to the chip.
    ///
    /// Goes through gateway, subnet mask, hardware address and IP address,
    /// in this order. A setting on which `settings` and `current` agree is
    /// passed over. One on which they disagree is written to its register,
    /// and, once the bus has accepted the write, taken over into `current`.
    /// The first write that the bus refuses ends the call with the error of
    /// the bus; what was written before it stays written.
    fn write_settings<SpiBus: Bus>(
        bus: &mut SpiBus,
        current: &mut HostConfig,
        settings: &HostConfig,
    ) -> (r: Result<(), SpiBus::Error>)
        ensures
            reconciled(
                old(bus).exchanges(),
                *old(current),
                *settings,
                final(bus).exchanges(),
                *final(current),
                r,
            ),
            *old(current) == *settings ==> r is Ok && final(bus).exchanges() == old(
                bus,
            ).exchanges(),
            r is Ok ==> *final(current) == *settings,
    {
        let ghost start = *current;
        let ghost before = bus.exchanges();
        let ghost plan = start.pending(*settings);
        proof {
            lemma_attempt(before, start, *settings, Field::Gateway);
            lemma_attempt(before, start, *settings, Field::Subnet);
            lemma_attempt(before, start, *settings, Field::Mac);
            lemma_attempt(before, start, *settings, Field::Ip);
            assert(before =~= before + in_turn::<SpiBus::Error>(plan.take(0), Ok(())));
        }
        if settings.gateway != current.gateway {
            let address = settings.gateway.octets();
            bus.write_frame(register::COMMON, register::common::GATEWAY, &address)?;
            current.gateway = settings.gateway;
        }
        if settings.subnet != current.subnet {
            let address = settings.subnet.octets();
            bus.write_frame(register::COMMON, register::common::SUBNET_MASK, &address)?;
            current.subnet = settings.subnet;
        }
        if settings.mac != current.mac {
            let address = settings.mac.octets;
            bus.write_frame(register::COMMON, register::common::MAC, &address)?;
            current.mac = settings.mac;
        }
        if settings.ip != current.ip {
            let address = settings.ip.octets();
            bus.write_frame(register::COMMON, register::common::IP, &address)?;
            current.ip = settings.ip;
        }
        proof {
            assert(plan.take(plan.len() as int) =~= plan);
        }
        Ok(())
    }
}

} // verus!
