//! The Generic Attribute Profile: ready-made attribute tables.
//!
//! GATT lays services out as runs of attributes: a service declaration, then
//! for each characteristic its declaration, its descriptors and its value.

use crate::att::{
    attrs_in_range, handles_in_order, lemma_range_above_table, select, views, visit_allowed,
    visit_outcome, Attribute, AttributeProvider, AttributeView, Handle, HandleRange,
};
use crate::error::Error;
use crate::uuid::{
    AttUuid, AttUuidView, Uuid, Uuid16, BATTERY_LEVEL, CHARACTERISTIC,
    CLIENT_CHARACTERISTIC_CONFIGURATION, PRIMARY_SERVICE,
};
use vstd::prelude::*;

verus! {

/// Whether `uuid` is the type of a declaration that starts a group: the
/// 16-bit "Primary Service" type.
pub open spec fn starts_group(uuid: AttUuidView) -> bool {
    uuid == AttUuidView::Uuid16(PRIMARY_SERVICE)
}

/// The attributes of the Battery Service: the service declaration, the
/// declaration of its one characteristic, and the battery level itself.
pub open spec fn battery_service_table() -> Seq<AttributeView> {
    seq![
        AttributeView {
            att_type: AttUuidView::Uuid16(PRIMARY_SERVICE),
            handle: 1,
            // "Battery Service" = 0x180F
            value: seq![0x0Fu8, 0x18u8],
        },
        AttributeView {
            att_type: AttUuidView::Uuid16(CHARACTERISTIC),
            handle: 2,
            // properties (READ), value handle 0x0003, UUID 0x2A19
            value: seq![0x02u8, 0x03u8, 0x00u8, 0x19u8, 0x2Au8],
        },
        AttributeView {
            att_type: AttUuidView::Uuid16(BATTERY_LEVEL),
            handle: 3,
            value: seq![48u8],
        },
    ]
}

/// The group that the Battery Service declares at `handle`, as the handle of
/// its last attribute: the service and its characteristic both end at the
/// battery level.
pub open spec fn battery_service_group(handle: u16) -> Option<u16> {
    if handle == 1 || handle == 2 {
        Some(3u16)
    } else {
        None
    }
}

/// An attribute table that enumerates as a *Battery Service*.
pub struct BatteryServiceAttrs {
    attributes: [Attribute<'static>; 3],
}

impl BatteryServiceAttrs {
    /// The stored attributes, in storage order.
    pub closed spec fn table(&self) -> Seq<Attribute<'static>> {
        self.attributes@
    }

    /// What holds of every table: it stores the Battery Service.
    #[verifier::type_invariant]
    pub open spec fn wf(&self) -> bool {
        views(self.table()) == battery_service_table()
    }

    /// The Battery Service, reporting a level of 48.
    pub fn new() -> (table: Self)
        ensures
            table.wf(),
    {
        let service = Attribute {
            att_type: AttUuid::Uuid16(Uuid16(PRIMARY_SERVICE)),
            handle: Handle::from_raw(0x0001),
            value: &[0x0F, 0x18],
        };
        let characteristic = Attribute {
            att_type: AttUuid::Uuid16(Uuid16(CHARACTERISTIC)),
            handle: Handle::from_raw(0x0002),
            value: &[0x02, 0x03, 0x00, 0x19, 0x2A],
        };
        let level = Attribute {
            att_type: AttUuid::Uuid16(Uuid16(BATTERY_LEVEL)),
            handle: Handle::from_raw(0x0003),
            value: &[48u8],
        };
        proof {
            let expected = battery_service_table();
            assert(service@.value =~= expected[0].value);
            assert(characteristic@.value =~= expected[1].value);
            assert(level@.value =~= expected[2].value);
        }
        let attributes = [service, characteristic, level];
        assert(views(attributes@) =~= battery_service_table());
        BatteryServiceAttrs { attributes }
    }

    /// A walk over all attributes of the table, in storage order.
    pub fn attributes(&self) -> (all: Attributes<'_>)
        ensures
            all.remaining() == self.table(),
            self.wf(),
    {
        proof {
            use_type_invariant(self);
        }
        Attributes::new(&self.attributes)
    }
}

impl AttributeProvider for BatteryServiceAttrs {
    open spec fn attrs(&self) -> Seq<Attribute<'_>> {
        self.table()
    }

    open spec fn group_span(&self, handle: Handle) -> Option<u16> {
        battery_service_group(handle.raw())
    }

    open spec fn grouping(&self, uuid: AttUuidView) -> bool {
        starts_group(uuid)
    }

    fn for_attrs_in_range<F>(&mut self, range: HandleRange, f: F) -> (outcome: Result<
        (),
        Error,
    >) where F: FnMut(&Self, Attribute<'_>) -> Result<(), Error>
        ensures
            final(self).wf(),
    {
        proof {
            use_type_invariant(&*self);
        }
        let table: &Self = &*self;
        visit_in_range(table, &table.attributes, range, f)
    }

    fn is_grouping_attr(&self, uuid: AttUuid) -> (r: bool) {
        uuid.is_alias(PRIMARY_SERVICE)
    }

    fn group_end(&self, handle: Handle) -> (last: Option<&Attribute<'_>>)
        ensures
            self.wf(),
    {
        proof {
            use_type_invariant(self);
        }
        match handle.as_u16() {
            0x0001 => Some(&self.attributes[2]),
            0x0002 => Some(&self.attributes[2]),
            _ => None,
        }
    }
}

/// A UUID of the Nordic UART Service, `6E40xxxx-B5A3-F393-E0A9-E50E24DCCA9E`
/// with `short` for the digits left open, in the byte order of the protocol.
pub open spec fn nordic_uart_uuid(short: u8) -> Seq<u8> {
    seq![
        0x9eu8, 0xcau8, 0xdcu8, 0x24u8, 0x0eu8, 0xe5u8, 0xa9u8, 0xe0u8,
        0x93u8, 0xf3u8, 0xa3u8, 0xb5u8, short, 0x00u8, 0x40u8, 0x6eu8,
    ]
}

/// The attributes of the Nordic UART Service: the service declaration, then
/// for each of its two characteristics the declaration, the client
/// configuration descriptor and the value.
pub open spec fn nordic_uart_table() -> Seq<AttributeView> {
    seq![
        AttributeView {
            att_type: AttUuidView::Uuid16(PRIMARY_SERVICE),
            handle: 1,
            value: nordic_uart_uuid(0x01),
        },
        AttributeView {
            att_type: AttUuidView::Uuid16(CHARACTERISTIC),
            handle: 2,
            // properties (write request, write command), value handle 0x0004
            value: seq![0x0Cu8, 0x04u8, 0x00u8] + nordic_uart_uuid(0x02),
        },
        AttributeView {
            att_type: AttUuidView::Uuid16(CLIENT_CHARACTERISTIC_CONFIGURATION),
            handle: 3,
            value: seq![0x00u8, 0x00u8],
        },
        AttributeView {
            att_type: AttUuidView::Uuid128(nordic_uart_uuid(0x02)),
            handle: 4,
            value: seq![0x61u8, 0x62u8, 0x63u8],
        },
        AttributeView {
            att_type: AttUuidView::Uuid16(CHARACTERISTIC),
            handle: 5,
            // properties (notify), value handle 0x0007
            value: seq![0x20u8, 0x07u8, 0x00u8] + nordic_uart_uuid(0x03),
        },
        AttributeView {
            att_type: AttUuidView::Uuid16(CLIENT_CHARACTERISTIC_CONFIGURATION),
            handle: 6,
            value: seq![0x00u8, 0x00u8],
        },
        AttributeView {
            att_type: AttUuidView::Uuid128(nordic_uart_uuid(0x03)),
            handle: 7,
            value: Seq::<u8>::empty(),
        },
    ]
}

/// The group that the Nordic UART Service declares at `handle`, as the handle
/// of its last attribute: the service and its second characteristic end with
/// the table, its first characteristic ends at its own value.
pub open spec fn nordic_uart_group(handle: u16) -> Option<u16> {
    if handle == 1 || handle == 5 {
        Some(7u16)
    } else if handle == 2 {
        Some(4u16)
    } else {
        None
    }
}

/// An attribute table that enumerates as a *Nordic UART Service*.
pub struct NordicUartAttrs {
    attributes: [Attribute<'static>; 7],
}

impl NordicUartAttrs {
    /// The stored attributes, in storage order.
    pub closed spec fn table(&self) -> Seq<Attribute<'static>> {
        self.attributes@
    }

    /// What holds of every table: it stores the Nordic UART Service.
    #[verifier::type_invariant]
    pub open spec fn wf(&self) -> bool {
        views(self.table()) == nordic_uart_table()
    }

    /// The Nordic UART Service, with `abc` waiting in the first
    /// characteristic and nothing in the second.
    pub fn new() -> (table: Self)
        ensures
            table.wf(),
    {
        let service = Attribute {
            att_type: AttUuid::Uuid16(Uuid16(PRIMARY_SERVICE)),
            handle: Handle::from_raw(0x0001),
            value: &[
                0x9e, 0xca, 0xdc, 0x24, 0x0e, 0xe5, 0xa9, 0xe0, 0x93, 0xf3, 0xa3, 0xb5, 0x01, 0x00,
                0x40, 0x6e,
            ],
        };
        // UART TX
        let tx = Attribute {
            att_type: AttUuid::Uuid16(Uuid16(CHARACTERISTIC)),
            handle: Handle::from_raw(0x0002),
            value: &[
                0x0C, 0x04, 0x00, 0x9e, 0xca, 0xdc, 0x24, 0x0e, 0xe5, 0xa9, 0xe0, 0x93, 0xf3, 0xa3,
                0xb5, 0x02, 0x00, 0x40, 0x6e,
            ],
        };
        let tx_config = Attribute {
            att_type: AttUuid::Uuid16(Uuid16(CLIENT_CHARACTERISTIC_CONFIGURATION)),
            handle: Handle::from_raw(0x0003),
            value: &[0x00, 0x00],
        };
        let tx_value = Attribute {
            att_type: AttUuid::Uuid128(
                Uuid::from_bytes(
                    [
                        0x9e, 0xca, 0xdc, 0x24, 0x0e, 0xe5, 0xa9, 0xe0, 0x93, 0xf3, 0xa3, 0xb5, 0x02,
                        0x00, 0x40, 0x6e,
                    ],
                ),
            ),
            handle: Handle::from_raw(0x0004),
            value: &[0x61, 0x62, 0x63],
        };
        // UART RX
        let rx = Attribute {
            att_type: AttUuid::Uuid16(Uuid16(CHARACTERISTIC)),
            handle: Handle::from_raw(0x0005),
            value: &[
                0x20, 0x07, 0x00, 0x9e, 0xca, 0xdc, 0x24, 0x0e, 0xe5, 0xa9, 0xe0, 0x93, 0xf3, 0xa3,
                0xb5, 0x03, 0x00, 0x40, 0x6e,
            ],
        };
        let rx_config = Attribute {
            att_type: AttUuid::Uuid16(Uuid16(CLIENT_CHARACTERISTIC_CONFIGURATION)),
            handle: Handle::from_raw(0x0006),
            value: &[0x00, 0x00],
        };
        let rx_value = Attribute {
            att_type: AttUuid::Uuid128(
                Uuid::from_bytes(
                    [
                        0x9e, 0xca, 0xdc, 0x24, 0x0e, 0xe5, 0xa9, 0xe0, 0x93, 0xf3, 0xa3, 0xb5, 0x03,
                        0x00, 0x40, 0x6e,
                    ],
                ),
            ),
            handle: Handle::from_raw(0x0007),
            value: &[],
        };
        proof {
            let expected = nordic_uart_table();
            assert(service@.value =~= expected[0].value);
            assert(tx@.value =~= expected[1].value);
            assert(tx_config@.value =~= expected[2].value);
            assert(tx_value@.value =~= expected[3].value);
            assert(rx@.value =~= expected[4].value);
            assert(rx_config@.value =~= expected[5].value);
            assert(rx_value@.value =~= expected[6].value);
            assert(tx_value@.att_type =~= expected[3].att_type) by {
                assert(tx_value.att_type@->Uuid128_0 =~= nordic_uart_uuid(0x02));
            }
            assert(rx_value@.att_type =~= expected[6].att_type) by {
                assert(rx_value.att_type@->Uuid128_0 =~= nordic_uart_uuid(0x03));
            }
        }
        let attributes = [service, tx, tx_config, tx_value, rx, rx_config, rx_value];
        assert(views(attributes@) =~= nordic_uart_table());
        NordicUartAttrs { attributes }
    }

    /// A walk over all attributes of the table, in storage order.
    pub fn attributes(&self) -> (all: Attributes<'_>)
        ensures
            all.remaining() == self.table(),
            self.wf(),
    {
        proof {
            use_type_invariant(self);
        }
        Attributes::new(&self.attributes)
    }
}

impl AttributeProvider for NordicUartAttrs {
    open spec fn attrs(&self) -> Seq<Attribute<'_>> {
        self.table()
    }

    open spec fn group_span(&self, handle: Handle) -> Option<u16> {
        nordic_uart_group(handle.raw())
    }

    open spec fn grouping(&self, uuid: AttUuidView) -> bool {
        starts_group(uuid)
    }

    fn for_attrs_in_range<F>(&mut self, range: HandleRange, f: F) -> (outcome: Result<
        (),
        Error,
    >) where F: FnMut(&Self, Attribute<'_>) -> Result<(), Error>
        ensures
            final(self).wf(),
    {
        proof {
            use_type_invariant(&*self);
        }
        let table: &Self = &*self;
        visit_in_range(table, &table.attributes, range, f)
    }

    fn is_grouping_attr(&self, uuid: AttUuid) -> (r: bool) {
        uuid.is_alias(PRIMARY_SERVICE)
    }

    fn group_end(&self, handle: Handle) -> (last: Option<&Attribute<'_>>)
        ensures
            self.wf(),
    {
        proof {
            use_type_invariant(self);
        }
        match handle.as_u16() {
            0x0001 => Some(&self.attributes[6]),
            0x0002 => Some(&self.attributes[3]),
            0x0005 => Some(&self.attributes[6]),
            _ => None,
        }
    }
}

/// Both service tables address their attributes as a table must: the one at
/// storage position `i` has handle `i + 1`. The Battery Service has three
/// attributes, the Nordic UART Service seven.
pub proof fn lemma_service_handles_in_order(table: Seq<Attribute<'_>>)
    requires
        views(table) == battery_service_table() || views(table) == nordic_uart_table(),
    ensures
        handles_in_order(table),
        views(table) == battery_service_table() ==> table.len() == 3,
        views(table) == nordic_uart_table() ==> table.len() == 7,
{
    assert(table.len() == views(table).len());
    assert forall|i: int| 0 <= i < table.len() implies (#[trigger] table[i]).handle.raw() == i
        + 1 by {
        assert(views(table)[i] == table[i]@);
    }
}

/// Whether a type starts a group depends on the type alone: every table of
/// both services answers as `starts_group` does, whatever it stores and
/// however often it is asked.
pub proof fn lemma_grouping_depends_on_type_alone(
    battery: BatteryServiceAttrs,
    uart: NordicUartAttrs,
    uuid: AttUuid,
)
    ensures
        battery.grouping(uuid@) == starts_group(uuid@),
        uart.grouping(uuid@) == starts_group(uuid@),
{
}

/// Every group that the two services declare starts at a declaration of the
/// table and ends at or after it, within the table.
pub proof fn lemma_groups_lie_within_tables(handle: u16)
    ensures
        battery_service_group(handle) matches Some(end) ==> 1 <= handle <= end
            <= battery_service_table().len(),
        nordic_uart_group(handle) matches Some(end) ==> 1 <= handle <= end
            <= nordic_uart_table().len(),
{
}

/// A single pass over a stored run of attributes, which hands out a copy of
/// each in storage order.
pub struct Attributes<'a> {
    to_yield: &'a [Attribute<'a>],
    yielded: usize,
}

impl<'a> Attributes<'a> {
    /// The attributes that have not been handed out yet, in the order in
    /// which they will be.
    pub closed spec fn remaining(&self) -> Seq<Attribute<'a>> {
        self.to_yield@.skip(self.yielded as int)
    }

    #[verifier::type_invariant]
    closed spec fn inv(&self) -> bool {
        self.yielded <= self.to_yield@.len()
    }

    /// A pass over `attrs`, from its first attribute.
    pub fn new(attrs: &'a [Attribute<'a>]) -> (all: Self)
        ensures
            all.remaining() == attrs@,
    {
        Attributes { to_yield: attrs, yielded: 0 }
    }

    /// The next attribute, or `None` once all have been handed out.
    pub fn next(&mut self) -> (attr: Option<Attribute<'a>>)
        ensures
            attr is Some <==> old(self).remaining().len() > 0,
            attr matches Some(a) ==> a == old(self).remaining().first() && final(self).remaining()
                == old(self).remaining().drop_first(),
            attr is None ==> final(self).remaining() == old(self).remaining(),
    {
        proof {
            use_type_invariant(&*self);
        }
        if self.yielded < self.to_yield.len() {
            let attr = &self.to_yield[self.yielded];
            self.yielded += 1;
            assert(self.remaining() =~= old(self).remaining().drop_first());
            Some(Attribute { att_type: attr.att_type, handle: attr.handle, value: attr.value })
        } else {
            None
        }
    }
}

/// Calls `f` on the attributes of `table` that `range` selects, in storage
/// order, handing `provider` and a copy of the attribute to each call, and
/// stops at the first call that fails.
pub fn visit_in_range<P, F>(
    provider: &P,
    table: &[Attribute<'_>],
    range: HandleRange,
    f: F,
) -> (outcome: Result<(), Error>) where F: FnMut(&P, Attribute<'_>) -> Result<(), Error>
    requires
        visit_allowed(provider, f, attrs_in_range(table@, range)),
    ensures
        visit_outcome(provider, f, attrs_in_range(table@, range), outcome),
        attrs_in_range(table@, range).len() == 0 ==> outcome is Ok,
        range.first() > table@.len() ==> outcome is Ok,
{
    let selected = select(table, range);
    let mut to_visit = Attributes::new(selected);
    let mut visit = f;
    let ghost visited = attrs_in_range(table@, range);
    let ghost mut done: int = 0;
    proof {
        use_type_invariant(&range);
        if range.first() > table@.len() {
            lemma_range_above_table(table@, range);
        }
    }
    loop
        invariant
            visit == f,
            visited == attrs_in_range(table@, range),
            range.first() > table@.len() ==> visited.len() == 0,
            0 <= done <= visited.len(),
            to_visit.remaining() == visited.skip(done),
            visit_allowed(provider, f, visited),
            forall|j: int|
                0 <= j < done ==> call_ensures(f, (provider, #[trigger] visited[j]), Ok(())),
        decreases visited.len() - done,
    {
        match to_visit.next() {
            None => {
                return Ok(());
            },
            Some(attr) => {
                assert(attr == visited[done]);
                match visit(provider, attr) {
                    Ok(accepted) => {
                        assert(accepted == ());
                    },
                    Err(e) => {
                        return Err(e);
                    },
                }
                proof {
                    assert(visited.skip(done).drop_first() =~= visited.skip(done + 1));
                    done = done + 1;
                }
            },
        }
    }
}

} // verus!
