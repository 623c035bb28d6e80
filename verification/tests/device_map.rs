use modbus_client::device::{get_map, RawValue, ValueParam};

#[test]
fn sort_val() {
    let ar = vec![
        ValueParam {
            addr: 56,
            name: "vasia".to_string(),
            little_endian: false,
            value: RawValue::Bool(true),
        },
        ValueParam {
            addr: 12,
            name: "Igar".to_string(),
            little_endian: false,
            value: RawValue::Bool(true),
        },
        ValueParam {
            addr: 999,
            name: "Kristia".to_string(),
            little_endian: false,
            value: RawValue::Bool(true),
        },
    ];

    let res = vec![12_u16, 56, 999];

    assert_eq!(get_map(ar), res);
}
