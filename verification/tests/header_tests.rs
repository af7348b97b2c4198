use fitsrotate_rs::errors::RotateError;
use fitsrotate_rs::header::{remap_header, AxisKeyStub, CardName, Header};

fn full_header(naxis: usize) -> Header {
    let mut h = Header::new();
    let stubs = [
        (AxisKeyStub::CType, "TYPE"),
        (AxisKeyStub::CRVal, "VAL"),
        (AxisKeyStub::CDelt, "DELT"),
        (AxisKeyStub::CRPix, "PIX"),
        (AxisKeyStub::CUnit, "UNIT"),
    ];
    for (stub, tag) in stubs {
        for axis in 1..=naxis {
            h.push_axis_card(stub, axis, format!("{}{}", tag, axis));
        }
    }
    h
}

fn value_of(h: &Header, stub: AxisKeyStub, axis: usize) -> String {
    h.axis_lookup(stub, axis).unwrap().clone()
}

#[test]
fn lookup_finds_a_present_key() {
    let h = full_header(3);
    assert_eq!(value_of(&h, AxisKeyStub::CRVal, 2), "VAL2");
}

#[test]
fn lookup_misses_an_absent_key() {
    let h = full_header(3);
    assert!(h.axis_lookup(AxisKeyStub::CType, 4).is_none());
}

#[test]
fn lookup_returns_the_first_of_duplicates() {
    let mut h = Header::new();
    h.push_axis_card(AxisKeyStub::CType, 1, "FIRST".to_string());
    h.push_axis_card(AxisKeyStub::CType, 1, "SECOND".to_string());
    assert_eq!(value_of(&h, AxisKeyStub::CType, 1), "FIRST");
}

#[test]
fn remap_with_identity_map_keeps_values() {
    let h = full_header(3);
    let out = remap_header(&h, &vec![1, 2, 3], 3).unwrap();
    for axis in 1..=3 {
        assert_eq!(value_of(&out, AxisKeyStub::CType, axis), format!("TYPE{}", axis));
        assert_eq!(value_of(&out, AxisKeyStub::CUnit, axis), format!("UNIT{}", axis));
    }
}

#[test]
fn remap_moves_every_stub_of_an_axis() {
    let h = full_header(2);
    // Old file axis 1 becomes file axis 2 and the other way round.
    let out = remap_header(&h, &vec![2, 1], 2).unwrap();
    assert_eq!(value_of(&out, AxisKeyStub::CType, 2), "TYPE1");
    assert_eq!(value_of(&out, AxisKeyStub::CRVal, 2), "VAL1");
    assert_eq!(value_of(&out, AxisKeyStub::CDelt, 2), "DELT1");
    assert_eq!(value_of(&out, AxisKeyStub::CRPix, 2), "PIX1");
    assert_eq!(value_of(&out, AxisKeyStub::CUnit, 2), "UNIT1");
    assert_eq!(value_of(&out, AxisKeyStub::CType, 1), "TYPE2");
}

#[test]
fn remap_carries_other_cards_over() {
    let mut h = full_header(2);
    h.push_other_card("OBJECT".to_string(), "M31".to_string());
    let out = remap_header(&h, &vec![2, 1], 2).unwrap();
    let found = out.cards.iter().any(|c| match &c.name {
        CardName::Other(n) => n == "OBJECT" && c.value == "M31",
        _ => false,
    });
    assert!(found);
}

#[test]
fn remap_keeps_axis_cards_beyond_naxis_verbatim() {
    let mut h = full_header(2);
    h.push_axis_card(AxisKeyStub::CType, 7, "SPARE".to_string());
    let out = remap_header(&h, &vec![2, 1], 2).unwrap();
    assert_eq!(value_of(&out, AxisKeyStub::CType, 7), "SPARE");
}

#[test]
fn remap_reports_a_missing_key() {
    let mut h = Header::new();
    for axis in 1..=2 {
        h.push_axis_card(AxisKeyStub::CType, axis, format!("TYPE{}", axis));
    }
    // Every CRVAL/CDELT/CRPIX/CUNIT key is absent; CRVAL1 is first in order.
    let out = remap_header(&h, &vec![1, 2], 2);
    assert_eq!(out.unwrap_err(), RotateError::KeyMissing(AxisKeyStub::CRVal, 1));
}

#[test]
fn remap_reports_the_first_missing_key_in_order() {
    let mut h = full_header(3);
    // Drop CTYPE2 and CRVAL1; the stub-major scan hits CTYPE2 first.
    h.cards.retain(|c| match &c.name {
        CardName::Axis(AxisKeyStub::CType, 2) => false,
        CardName::Axis(AxisKeyStub::CRVal, 1) => false,
        _ => true,
    });
    let out = remap_header(&h, &vec![1, 2, 3], 3);
    assert_eq!(out.unwrap_err(), RotateError::KeyMissing(AxisKeyStub::CType, 2));
}
