use buslink::descriptor::{Direction, InterfaceDescriptor, MethodDescriptor};
use buslink::error::BusError;
use buslink::proxy::{BusEndpoint, CallbackProxy};
use buslink::value::{Value, ValueShape};
use buslink::watcher::{CallbackRegistry, DisconnectWatcher};
use buslink::wire::encode_args;

fn callback_interface() -> InterfaceDescriptor {
    InterfaceDescriptor {
        interface_name: String::from("org.chromium.bluetooth.BluetoothMediaCallback"),
        methods: vec![
            MethodDescriptor {
                name: String::from("OnBluetoothAudioDeviceAdded"),
                argument_shapes: vec![ValueShape::Str],
                reply_shape: None,
                direction: Direction::Notify,
            },
            MethodDescriptor {
                name: String::from("OnBluetoothAudioDeviceRemoved"),
                argument_shapes: vec![ValueShape::Str],
                reply_shape: None,
                direction: Direction::Notify,
            },
        ],
    }
}

fn client7_proxy(conn: u64) -> CallbackProxy {
    CallbackProxy::generate(String::from("/client7"), &callback_interface(), conn)
}

#[test]
fn invoking_a_proxy_yields_one_notification_with_the_encoded_argument() {
    let proxy = client7_proxy(7);
    let args = vec![Value::Str(String::from("AA:BB:CC:DD:EE:FF"))];
    let n = proxy
        .invoke(&String::from("OnBluetoothAudioDeviceAdded"), &args)
        .expect("a live proxy must accept a declared method");
    assert_eq!(n.target, String::from("/client7"));
    assert_eq!(n.interface, String::from("org.chromium.bluetooth.BluetoothMediaCallback"));
    assert_eq!(n.method, String::from("OnBluetoothAudioDeviceAdded"));
    assert_eq!(n.payload, encode_args(&args));
}

#[test]
fn proxy_reports_its_target_address() {
    let proxy = client7_proxy(7);
    assert_eq!(proxy.target_address(), &String::from("/client7"));
    assert_eq!(proxy.owner_connection(), 7);
}

#[test]
fn proxy_rejects_unknown_methods_and_bad_arguments() {
    let proxy = client7_proxy(7);
    let args = vec![Value::Str(String::from("x"))];
    assert_eq!(
        proxy.invoke(&String::from("OnVolumeChanged"), &args).err(),
        Some(BusError::MethodNotFound)
    );
    let bad = vec![Value::Int(3)];
    assert_eq!(
        proxy.invoke(&String::from("OnBluetoothAudioDeviceAdded"), &bad).err(),
        Some(BusError::ShapeMismatch)
    );
    let too_many = vec![Value::Str(String::from("x")), Value::Str(String::from("y"))];
    assert_eq!(
        proxy.invoke(&String::from("OnBluetoothAudioDeviceAdded"), &too_many).err(),
        Some(BusError::ShapeMismatch)
    );
}

#[test]
fn retired_proxy_fails_with_proxy_retired() {
    let mut proxy = client7_proxy(7);
    proxy.retire();
    assert!(proxy.is_retired());
    let args = vec![Value::Str(String::from("x"))];
    assert_eq!(
        proxy.invoke(&String::from("OnBluetoothAudioDeviceAdded"), &args).err(),
        Some(BusError::ProxyRetired)
    );
}

#[test]
fn disconnect_retires_every_proxy_of_the_connection() {
    let mut reg = CallbackRegistry::new();
    let mut watcher = DisconnectWatcher::new();
    let p7 = client7_proxy(7);
    let conn7 = p7.owner_connection();
    let id7 = reg.register_callback(p7);
    watcher.attach(conn7, id7);
    let p8 = CallbackProxy::generate(String::from("/client8"), &callback_interface(), 8);
    let id8 = reg.register_callback(p8);
    watcher.attach(8, id8);

    let args = vec![Value::Str(String::from("AA:BB:CC:DD:EE:FF"))];
    let method = String::from("OnBluetoothAudioDeviceAdded");
    assert!(reg.invoke_callback(id7, &method, &args).is_ok());

    watcher.on_peer_disconnected(7, &mut reg);
    assert_eq!(reg.invoke_callback(id7, &method, &args).err(), Some(BusError::ProxyRetired));
    assert!(reg.invoke_callback(id8, &method, &args).is_ok());
}

#[test]
fn disconnect_is_idempotent() {
    let mut reg = CallbackRegistry::new();
    let mut watcher = DisconnectWatcher::new();
    let id = reg.register_callback(client7_proxy(7));
    watcher.attach(7, id);

    watcher.on_peer_disconnected(7, &mut reg);
    watcher.on_peer_disconnected(7, &mut reg);

    let args = vec![Value::Str(String::from("x"))];
    let method = String::from("OnBluetoothAudioDeviceAdded");
    assert_eq!(reg.invoke_callback(id, &method, &args).err(), Some(BusError::ProxyRetired));
}

#[test]
fn unregistered_id_fails_with_proxy_retired() {
    let reg = CallbackRegistry::new();
    let args = vec![Value::Str(String::from("x"))];
    assert_eq!(
        reg.invoke_callback(0, &String::from("OnBluetoothAudioDeviceAdded"), &args).err(),
        Some(BusError::ProxyRetired)
    );
}

#[test]
fn attach_endpoint_uses_the_endpoint_connection() {
    let mut reg = CallbackRegistry::new();
    let mut watcher = DisconnectWatcher::new();
    let p = client7_proxy(9);
    let id = reg.register_callback(CallbackProxy::generate(
        String::from("/client7"),
        &callback_interface(),
        9,
    ));
    watcher.attach_endpoint(&p, id);
    watcher.on_peer_disconnected(9, &mut reg);
    let args = vec![Value::Str(String::from("x"))];
    assert_eq!(
        reg.invoke_callback(id, &String::from("OnBluetoothAudioDeviceAdded"), &args).err(),
        Some(BusError::ProxyRetired)
    );
}
