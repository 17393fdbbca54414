use powerpico_client::device::{
    devices_from_ports, find_device, rediscover_device, select_rediscovered_device,
    sort_by_display_name, PortRecord, UsbPortDetails,
};
use powerpico_client::error::CoreError;
use powerpico_client::types::SerialDevice;

fn device(
    path: &str,
    vid: Option<u16>,
    pid: Option<u16>,
    serial: Option<&str>,
    manufacturer: Option<&str>,
    product: Option<&str>,
) -> SerialDevice {
    SerialDevice {
        id: format!("path:{path}"),
        display_name: path.into(),
        system_path: path.into(),
        vid,
        pid,
        serial_number: serial.map(Into::into),
        manufacturer: manufacturer.map(Into::into),
        product: product.map(Into::into),
    }
}

#[test]
fn rediscovery_prefers_a_unique_serial_number() {
    let original = device(
        "/dev/ttyACM0",
        Some(0x1209),
        Some(0x0001),
        Some("powerpico-1"),
        Some("OpenFeastTech"),
        Some("PowerPico"),
    );
    let found = device(
        "/dev/ttyACM2",
        Some(0x1209),
        Some(0x0002),
        Some("powerpico-1"),
        Some("OpenFeastTech"),
        Some("PowerPico Boot"),
    );
    let unrelated = device(
        "/dev/ttyUSB0",
        Some(0x1a86),
        Some(0x7523),
        Some("other"),
        Some("Other"),
        Some("Adapter"),
    );

    assert_eq!(
        select_rediscovered_device(
            &original,
            &[original.system_path.clone()],
            &[unrelated, found.clone()],
        ),
        Some(found)
    );
}

#[test]
fn rediscovery_uses_the_only_new_usb_device() {
    let original = device(
        "/dev/ttyACM0",
        Some(0x1209),
        Some(0x0001),
        None,
        Some("OpenFeastTech"),
        Some("PowerPico"),
    );
    let bootloader = device(
        "/dev/ttyACM1",
        Some(0x1209),
        Some(0x0002),
        None,
        Some("Bootloader"),
        Some("Pico Boot"),
    );

    assert_eq!(
        select_rediscovered_device(
            &original,
            &[original.system_path.clone()],
            &[bootloader.clone()],
        ),
        Some(bootloader)
    );
}

#[test]
fn rediscovery_rejects_ambiguous_new_usb_devices() {
    let original = device("/dev/ttyACM0", None, None, None, None, None);
    let first = device("/dev/ttyACM1", Some(0x1209), Some(0x0002), None, None, None);
    let second = device("/dev/ttyUSB0", Some(0x1a86), Some(0x7523), None, None, None);

    assert_eq!(
        select_rediscovered_device(
            &original,
            &[original.system_path.clone()],
            &[first, second],
        ),
        None
    );
}

#[test]
fn rediscovery_accepts_a_reused_system_path() {
    let original = device("/dev/ttyACM0", None, None, None, None, None);

    assert_eq!(
        select_rediscovered_device(
            &original,
            &[original.system_path.clone()],
            &[original.clone()],
        ),
        Some(original)
    );
}

#[test]
fn rediscovery_matches_vendor_and_product_ids_among_new_ports() {
    let original = device("/dev/ttyACM0", Some(0x1209), Some(0x0001), None, None, None);
    let same_ids = device("/dev/ttyACM3", Some(0x1209), Some(0x0001), None, None, None);
    let other = device("/dev/ttyUSB1", Some(0x1a86), Some(0x7523), None, None, None);
    assert_eq!(
        select_rediscovered_device(&original, &[original.system_path.clone()], &[other, same_ids.clone()]),
        Some(same_ids)
    );
}

#[test]
fn rediscovery_matches_the_product_name_among_new_ports() {
    let original = device("/dev/ttyACM0", Some(0x1209), Some(0x0001), None, None, Some("PowerPico"));
    let boot = device("/dev/ttyACM3", Some(0x1209), Some(0x0002), None, None, Some("PowerPico"));
    let other = device("/dev/ttyUSB1", Some(0x1a86), Some(0x7523), None, None, Some("Adapter"));
    assert_eq!(
        select_rediscovered_device(&original, &[original.system_path.clone()], &[boot.clone(), other]),
        Some(boot)
    );
}

#[test]
fn rediscovery_ignores_ports_that_were_already_present() {
    let original = device("/dev/ttyACM0", Some(0x1209), Some(0x0001), None, None, None);
    let old = device("/dev/ttyUSB0", Some(0x1209), Some(0x0001), None, None, None);
    assert_eq!(
        select_rediscovered_device(&original, &[original.system_path.clone(), old.system_path.clone()], &[old]),
        None
    );
}

#[test]
fn rediscover_device_reports_the_display_name_when_missing() {
    let original = device("/dev/ttyACM0", None, None, None, None, None);
    let result = rediscover_device(&original, &[original.system_path.clone()], &[]);
    assert_eq!(result, Err(CoreError::DeviceNotFound("/dev/ttyACM0".into())));
}

#[test]
fn find_device_returns_the_first_match_or_not_found() {
    let a = device("/dev/ttyACM0", None, None, None, None, None);
    let b = device("/dev/ttyACM1", None, None, None, None, None);
    assert_eq!(find_device(&[a.clone(), b.clone()], "path:/dev/ttyACM1"), Ok(b));
    assert_eq!(
        find_device(&[a], "usb:missing"),
        Err(CoreError::DeviceNotFound("usb:missing".into()))
    );
}

#[test]
fn ports_become_sorted_devices_with_stable_ids() {
    let ports = vec![
        PortRecord {
            port_name: "/dev/ttyUSB0".into(),
            usb: Some(UsbPortDetails {
                vid: 0x1209,
                pid: 0x000a,
                serial_number: Some("pp-7".into()),
                manufacturer: Some("OpenFeastTech".into()),
                product: Some("PowerPico".into()),
            }),
        },
        PortRecord { port_name: "/dev/ttyS0".into(), usb: None },
        PortRecord {
            port_name: "/dev/ttyACM0".into(),
            usb: Some(UsbPortDetails {
                vid: 0x1a86,
                pid: 0x7523,
                serial_number: None,
                manufacturer: Some("QinHeng".into()),
                product: None,
            }),
        },
    ];
    let devices = devices_from_ports(&ports);
    assert_eq!(devices.len(), 3);
    let names: Vec<&str> = devices.iter().map(|d| d.display_name.as_str()).collect();
    assert_eq!(
        names,
        vec![
            "PowerPico \u{b7} /dev/ttyUSB0",
            "QinHeng \u{b7} /dev/ttyACM0",
            "Serial device \u{b7} /dev/ttyS0",
        ]
    );
    assert_eq!(devices[0].id, "usb:1209:000a:pp-7");
    assert_eq!(devices[1].id, "path:/dev/ttyACM0");
    assert_eq!(devices[2].id, "path:/dev/ttyS0");
    assert_eq!(devices[2].vid, None);
    assert_eq!(devices[0].serial_number.as_deref(), Some("pp-7"));
}

#[test]
fn sorting_by_name_keeps_equal_names_in_order() {
    let mut first = device("/dev/b", None, None, None, None, None);
    first.id = "first".into();
    let mut second = device("/dev/b", None, None, None, None, None);
    second.id = "second".into();
    let a = device("/dev/a", None, None, None, None, None);
    let c = device("/dev/c", None, None, None, None, None);
    let sorted = sort_by_display_name(vec![c.clone(), first.clone(), a.clone(), second.clone()]);
    assert_eq!(sorted, vec![a, first, second, c]);
}
