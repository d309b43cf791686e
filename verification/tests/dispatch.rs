use buslink::descriptor::{Direction, InterfaceDescriptor, MethodDescriptor};
use buslink::error::BusError;
use buslink::export::{CountingHandler, EchoHandler, ExportedObject, Exporter, RejectingHandler};
use buslink::value::{Value, ValueShape};
use buslink::wire::{encode, encode_args};

fn notify_method(name: &str, argument_shapes: Vec<ValueShape>) -> MethodDescriptor {
    MethodDescriptor {
        name: String::from(name),
        argument_shapes,
        reply_shape: None,
        direction: Direction::Notify,
    }
}

fn call_method(
    name: &str,
    argument_shapes: Vec<ValueShape>,
    reply_shape: Option<ValueShape>,
) -> MethodDescriptor {
    MethodDescriptor {
        name: String::from(name),
        argument_shapes,
        reply_shape,
        direction: Direction::Call,
    }
}

fn media_interface() -> InterfaceDescriptor {
    InterfaceDescriptor {
        interface_name: String::from("org.example.Media"),
        methods: vec![
            notify_method("StartSession", vec![]),
            notify_method("StopSession", vec![]),
            call_method("Connect", vec![ValueShape::Str], None),
        ],
    }
}

fn counting_media() -> ExportedObject<CountingHandler> {
    ExportedObject::bind(
        String::from("/media0"),
        &media_interface(),
        CountingHandler { calls: 0, last_method: None },
    )
}

#[test]
fn notify_dispatch_runs_handler_once_without_reply() {
    let mut obj = counting_media();
    let r = obj.dispatch(&String::from("StartSession"), &vec![]);
    assert_eq!(r, Ok(None));
    assert_eq!(obj.handler.calls, 1);
    assert_eq!(obj.handler.last_method, Some(String::from("StartSession")));
}

#[test]
fn dispatch_invokes_only_the_named_handler_entry() {
    let mut obj = counting_media();
    let r = obj.dispatch(&String::from("StopSession"), &vec![]);
    assert_eq!(r, Ok(None));
    assert_eq!(obj.handler.last_method, Some(String::from("StopSession")));
    assert!(obj.handler.last_method != Some(String::from("StartSession")));
}

#[test]
fn unknown_method_reports_not_found_and_runs_nothing() {
    let mut obj = counting_media();
    let r = obj.dispatch(&String::from("Initialize"), &vec![]);
    assert_eq!(r, Err(BusError::MethodNotFound));
    assert_eq!(obj.handler.calls, 0);
    assert_eq!(obj.handler.last_method, None);
}

#[test]
fn method_names_match_case_sensitively() {
    let mut obj = counting_media();
    let r = obj.dispatch(&String::from("startsession"), &vec![]);
    assert_eq!(r, Err(BusError::MethodNotFound));
    assert_eq!(obj.handler.calls, 0);
}

#[test]
fn malformed_arguments_report_shape_mismatch_and_run_nothing() {
    let mut obj = counting_media();
    let r = obj.dispatch(&String::from("Connect"), &vec![0xFF]);
    assert_eq!(r, Err(BusError::ShapeMismatch));
    assert_eq!(obj.handler.calls, 0);
}

#[test]
fn call_dispatch_with_no_reply_shape_sends_empty_reply() {
    let mut obj = counting_media();
    let payload = encode_args(&vec![Value::Str(String::from("dev0"))]);
    let r = obj.dispatch(&String::from("Connect"), &payload);
    assert_eq!(r, Ok(Some(vec![])));
    assert_eq!(obj.handler.calls, 1);
}

#[test]
fn call_dispatch_encodes_the_handler_reply() {
    let iface = InterfaceDescriptor {
        interface_name: String::from("org.example.Echo"),
        methods: vec![call_method("Echo", vec![ValueShape::Str], Some(ValueShape::Str))],
    };
    let mut obj = ExportedObject::bind(String::from("/echo0"), &iface, EchoHandler {});
    let arg = Value::Str(String::from("pong"));
    let payload = encode_args(&vec![arg]);
    let r = obj.dispatch(&String::from("Echo"), &payload);
    let expected = encode(&Value::Str(String::from("pong")), &ValueShape::Str);
    assert_eq!(r, Ok(Some(expected)));
}

#[test]
fn handler_failure_becomes_error_reply_for_call() {
    let iface = InterfaceDescriptor {
        interface_name: String::from("org.example.Media"),
        methods: vec![call_method("Connect", vec![], None)],
    };
    let mut obj = ExportedObject::bind(String::from("/media0"), &iface, RejectingHandler {});
    let r = obj.dispatch(&String::from("Connect"), &vec![]);
    assert_eq!(r, Err(BusError::HandlerFailure));
}

#[test]
fn handler_failure_is_dropped_for_notify() {
    let iface = InterfaceDescriptor {
        interface_name: String::from("org.example.Media"),
        methods: vec![notify_method("StartSession", vec![])],
    };
    let mut obj = ExportedObject::bind(String::from("/media0"), &iface, RejectingHandler {});
    let r = obj.dispatch(&String::from("StartSession"), &vec![]);
    assert_eq!(r, Ok(None));
}

#[test]
fn duplicate_registration_last_write_wins() {
    let iface = InterfaceDescriptor {
        interface_name: String::from("org.example.Media"),
        methods: vec![
            call_method("Connect", vec![ValueShape::Str], None),
            notify_method("Connect", vec![]),
        ],
    };
    let mut obj = ExportedObject::bind(
        String::from("/media0"),
        &iface,
        CountingHandler { calls: 0, last_method: None },
    );
    let r = obj.dispatch(&String::from("Connect"), &vec![]);
    assert_eq!(r, Ok(None));
    assert_eq!(obj.handler.calls, 1);
}

#[test]
fn exporter_routes_by_address_and_interface() {
    let mut exporter: Exporter<CountingHandler> = Exporter::new();
    let h0 = exporter.publish(counting_media());
    let _h1 = exporter.publish(ExportedObject::bind(
        String::from("/media1"),
        &media_interface(),
        CountingHandler { calls: 0, last_method: None },
    ));
    let r = exporter.handle_call(
        &String::from("/media1"),
        &String::from("org.example.Media"),
        &String::from("StartSession"),
        &vec![],
    );
    assert_eq!(r, Ok(None));
    let r = exporter.handle_call(
        &String::from("/media2"),
        &String::from("org.example.Media"),
        &String::from("StartSession"),
        &vec![],
    );
    assert_eq!(r, Err(BusError::MethodNotFound));
    let r = exporter.handle_call(
        &String::from("/media0"),
        &String::from("org.example.Other"),
        &String::from("StartSession"),
        &vec![],
    );
    assert_eq!(r, Err(BusError::MethodNotFound));
    assert!(exporter.unpublish(h0));
    let r = exporter.handle_call(
        &String::from("/media0"),
        &String::from("org.example.Media"),
        &String::from("StartSession"),
        &vec![],
    );
    assert_eq!(r, Err(BusError::MethodNotFound));
    assert!(!exporter.unpublish(h0));
}
