use cabas::people::{devices_of, Device, User};
use cabas::{DeviceId, Timestamp, UserId};

fn alice() -> User {
    User::new(UserId::from_raw("alice"), "Alice")
}

fn phone() -> Device {
    Device::new(DeviceId::from_raw("d_phone"), UserId::from_raw("alice"), "Alice's iPhone", Timestamp(1_000))
}

fn laptop() -> Device {
    Device::new(DeviceId::from_raw("d_laptop"), UserId::from_raw("bob"), "Bob's laptop", Timestamp(2_000))
}

#[test]
fn a_user_owns_several_devices() {
    let second = Device::new(DeviceId::from_raw("d_tablet"), alice().id, "Alice's iPad", Timestamp(3_000));
    let devices = vec![phone(), laptop(), second];
    let mine = devices_of(&devices, &alice().id);
    assert_eq!(mine.len(), 2);
    assert!(mine.iter().all(|d| d.owner == alice().id));
}

#[test]
fn a_device_whose_owner_is_gone_is_merely_invisible() {
    let devices = vec![laptop()];
    assert_eq!(devices_of(&devices, &alice().id).len(), 0);
    assert_eq!(devices[0].owner, UserId::from_raw("bob"));
}
