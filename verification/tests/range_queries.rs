use rubble::att::{span, Attribute, AttributeProvider, Handle, HandleRange};
use rubble::error::Error;
use rubble::gatt::{BatteryServiceAttrs, NordicUartAttrs};

fn range(from: u16, to: u16) -> HandleRange {
    HandleRange::new(Handle::from_raw(from), Handle::from_raw(to)).unwrap()
}

fn battery_handles(from: u16, to: u16) -> (Vec<u16>, Result<(), Error>) {
    let mut table = BatteryServiceAttrs::new();
    let mut seen = Vec::new();
    let outcome = table.for_attrs_in_range(range(from, to), |_table, attr| {
        seen.push(attr.handle.as_u16());
        Ok(())
    });
    (seen, outcome)
}

fn uart_handles(from: u16, to: u16) -> (Vec<u16>, Result<(), Error>) {
    let mut table = NordicUartAttrs::new();
    let mut seen = Vec::new();
    let outcome = table.for_attrs_in_range(range(from, to), |_table, attr| {
        seen.push(attr.handle.as_u16());
        Ok(())
    });
    (seen, outcome)
}

#[test]
fn battery_full_range_visits_all_in_order() {
    assert_eq!(battery_handles(1, 3), (vec![1, 2, 3], Ok(())));
}

#[test]
fn battery_single_handle_range_visits_one() {
    assert_eq!(battery_handles(2, 2), (vec![2], Ok(())));
}

#[test]
fn battery_range_above_table_visits_nothing() {
    assert_eq!(battery_handles(4, 10), (vec![], Ok(())));
}

#[test]
fn battery_range_is_cut_at_table_end() {
    assert_eq!(battery_handles(2, 10), (vec![2, 3], Ok(())));
    assert_eq!(battery_handles(3, 0xFFFF), (vec![3], Ok(())));
    assert_eq!(battery_handles(1, 0xFFFF), (vec![1, 2, 3], Ok(())));
}

#[test]
fn uart_full_range_visits_all_in_order() {
    assert_eq!(uart_handles(1, 7), (vec![1, 2, 3, 4, 5, 6, 7], Ok(())));
}

#[test]
fn uart_inner_ranges() {
    assert_eq!(uart_handles(3, 5), (vec![3, 4, 5], Ok(())));
    assert_eq!(uart_handles(7, 7), (vec![7], Ok(())));
    assert_eq!(uart_handles(6, 100), (vec![6, 7], Ok(())));
}

#[test]
fn uart_range_above_table_visits_nothing() {
    assert_eq!(uart_handles(8, 8), (vec![], Ok(())));
    assert_eq!(uart_handles(8, 0xFFFF), (vec![], Ok(())));
    assert_eq!(uart_handles(0xFFFF, 0xFFFF), (vec![], Ok(())));
}

#[test]
fn every_range_visits_exactly_the_handles_it_holds() {
    for from in 1..=10u16 {
        for to in from..=10u16 {
            let in_battery: Vec<u16> = (1..=3u16).filter(|h| from <= *h && *h <= to).collect();
            assert_eq!(battery_handles(from, to), (in_battery, Ok(())));
            let in_uart: Vec<u16> = (1..=7u16).filter(|h| from <= *h && *h <= to).collect();
            assert_eq!(uart_handles(from, to), (in_uart, Ok(())));
        }
    }
}

#[test]
fn failure_on_third_attribute_stops_after_two() {
    let mut table = NordicUartAttrs::new();
    let mut accepted = Vec::new();
    let mut calls = 0;
    let outcome = table.for_attrs_in_range(range(1, 7), |_table, attr| {
        calls += 1;
        if calls == 3 {
            return Err(Error::InvalidValue);
        }
        accepted.push(attr.handle.as_u16());
        Ok(())
    });
    assert_eq!(outcome, Err(Error::InvalidValue));
    assert_eq!(accepted, vec![1, 2]);
    assert_eq!(calls, 3);
}

#[test]
fn failure_on_first_attribute_visits_nothing_more() {
    let mut table = BatteryServiceAttrs::new();
    let mut calls = 0;
    let outcome = table.for_attrs_in_range(range(2, 3), |_table, _attr| {
        calls += 1;
        Err(Error::Eof)
    });
    assert_eq!(outcome, Err(Error::Eof));
    assert_eq!(calls, 1);
}

#[test]
fn each_error_is_handed_back_unchanged() {
    for e in [Error::InvalidLength, Error::InvalidValue, Error::Eof, Error::IncompleteParse] {
        let mut table = BatteryServiceAttrs::new();
        let outcome = table.for_attrs_in_range(range(1, 1), |_table, _attr| Err(e));
        assert_eq!(outcome, Err(e));
    }
}

#[test]
fn failing_visitor_is_not_called_on_empty_range() {
    let mut table = BatteryServiceAttrs::new();
    let outcome = table.for_attrs_in_range(range(4, 4), |_table, _attr| Err(Error::Eof));
    assert_eq!(outcome, Ok(()));
}

#[test]
fn visitor_gets_the_table_and_a_copy_of_the_attribute() {
    let mut table = BatteryServiceAttrs::new();
    let mut values: Vec<Vec<u8>> = Vec::new();
    let mut ends: Vec<u16> = Vec::new();
    let outcome = table.for_attrs_in_range(range(1, 3), |table: &BatteryServiceAttrs, attr: Attribute<'_>| {
        values.push(attr.value.to_vec());
        if let Some(end) = table.group_end(attr.handle) {
            ends.push(end.handle.as_u16());
        }
        Ok(())
    });
    assert_eq!(outcome, Ok(()));
    assert_eq!(values, vec![vec![0x0F, 0x18], vec![0x02, 0x03, 0x00, 0x19, 0x2A], vec![48]]);
    assert_eq!(ends, vec![3, 3]);
}

#[test]
fn table_can_be_walked_again() {
    let mut table = NordicUartAttrs::new();
    for _ in 0..3 {
        let mut seen = Vec::new();
        let outcome = table.for_attrs_in_range(range(2, 4), |_table, attr| {
            seen.push(attr.handle.as_u16());
            Ok(())
        });
        assert_eq!(outcome, Ok(()));
        assert_eq!(seen, vec![2, 3, 4]);
    }
}

#[test]
fn span_of_ranges() {
    assert_eq!(span(3, range(1, 3)), (0, 3));
    assert_eq!(span(3, range(2, 2)), (1, 2));
    assert_eq!(span(3, range(4, 10)), (3, 3));
    assert_eq!(span(3, range(3, 10)), (2, 3));
    assert_eq!(span(7, range(1, 1)), (0, 1));
    assert_eq!(span(0, range(1, 1)), (0, 0));
    assert_eq!(span(7, range(0xFFFF, 0xFFFF)), (7, 7));
    assert_eq!(span(7, range(1, 0xFFFF)), (0, 7));
}

#[test]
fn select_hands_out_the_selected_part() {
    let table = NordicUartAttrs::new();
    let mut all = table.attributes();
    let mut stored = Vec::new();
    while let Some(attr) = all.next() {
        stored.push(attr);
    }
    assert_eq!(rubble::att::select(&stored, range(2, 4)), &stored[1..4]);
    assert_eq!(rubble::att::select(&stored, range(1, 7)), &stored[..]);
    assert_eq!(rubble::att::select(&stored, range(6, 9)), &stored[5..]);
    assert_eq!(rubble::att::select(&stored, range(8, 9)), &stored[..0]);
    assert_eq!(rubble::att::select(&[], range(1, 1)), &stored[..0]);
}

#[test]
fn visit_in_range_walks_any_stored_run() {
    let table = BatteryServiceAttrs::new();
    let mut all = table.attributes();
    let mut stored = Vec::new();
    while let Some(attr) = all.next() {
        stored.push(attr);
    }
    let mut seen = Vec::new();
    let outcome = rubble::gatt::visit_in_range(&7u8, &stored, range(2, 9), |tag: &u8, attr| {
        seen.push((*tag, attr.handle.as_u16(), attr.att_type, attr.value.to_vec()));
        Ok(())
    });
    assert_eq!(outcome, Ok(()));
    assert_eq!(
        seen,
        vec![
            (7, 2, stored[1].att_type, stored[1].value.to_vec()),
            (7, 3, stored[2].att_type, stored[2].value.to_vec()),
        ]
    );
}
