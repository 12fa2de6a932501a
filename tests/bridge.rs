use watermark_bridge::bridge::{
    classify_exit, conclude, encode_request, invocation, prepare_call, BridgeError, BridgeRequest,
    ExchangeReport,
};
use watermark_bridge::locator::{DeploymentMode, Probe, ResolutionContext, ResolutionError};
use watermark_bridge::path::AbsPath;
use watermark_bridge::wire::{is_valid_coordinate, write_array};

fn path(text: &str) -> AbsPath {
    let parts: Vec<String> = text.split('/').filter(|p| !p.is_empty()).map(|p| p.to_string()).collect();
    AbsPath::from_parts(parts).unwrap()
}

fn boxes(v: &[[&str; 4]]) -> Vec<Vec<String>> {
    v.iter().map(|b| b.iter().map(|c| c.to_string()).collect()).collect()
}

#[test]
fn encode_frames_image_and_boxes() {
    let req = BridgeRequest::new("abc".to_string(), boxes(&[["1.0", "2.5", "3", "4"], ["5", "6", "7", "8"]]));
    assert_eq!(
        encode_request(&req).unwrap(),
        r#"{"image_data":"abc","boxes":[[1.0,2.5,3,4],[5,6,7,8]]}"#
    );
}

#[test]
fn encode_escapes_image_data() {
    let req = BridgeRequest::new("a\"b\\c\nd".to_string(), vec![]);
    assert_eq!(encode_request(&req).unwrap(), r#"{"image_data":"a\"b\\c\nd","boxes":[]}"#);
}

#[test]
fn encode_forwards_empty_boxes() {
    let req = BridgeRequest::new("data:image/png;base64,iVBORw0KGgo=".to_string(), vec![]);
    let text = encode_request(&req).unwrap();
    assert_eq!(text, r#"{"image_data":"data:image/png;base64,iVBORw0KGgo=","boxes":[]}"#);
    let parsed: serde_json::Value = serde_json::from_str(&text).unwrap();
    assert_eq!(parsed["boxes"].as_array().unwrap().len(), 0);
}

#[test]
fn encoded_request_parses_back_to_its_fields() {
    let image = "data:image/png;base64,AAA=\u{e9}\"\t".to_string();
    let coords = [[10.5, 20.0, 30.25, 40.0], [0.0, -1.5, 2.0, 1e3]];
    let texts: Vec<Vec<String>> = coords
        .iter()
        .map(|b| b.iter().map(|c| serde_json::to_string(c).unwrap()).collect())
        .collect();
    let req = BridgeRequest::new(image.clone(), texts);
    let parsed: serde_json::Value = serde_json::from_str(&encode_request(&req).unwrap()).unwrap();
    assert_eq!(parsed["image_data"].as_str().unwrap(), image);
    let back: Vec<Vec<f64>> = parsed["boxes"]
        .as_array()
        .unwrap()
        .iter()
        .map(|b| b.as_array().unwrap().iter().map(|c| c.as_f64().unwrap()).collect())
        .collect();
    assert_eq!(back, coords.iter().map(|b| b.to_vec()).collect::<Vec<_>>());
}

#[test]
fn success_output_is_trimmed() {
    let r = classify_exit(true, b"  cleaned-image-data \n".to_vec(), b"warning".to_vec());
    assert_eq!(r.unwrap(), "cleaned-image-data");
}

#[test]
fn success_output_must_be_utf8() {
    let r = classify_exit(true, vec![0x66, 0xff, 0xfe], vec![]);
    assert!(matches!(r, Err(BridgeError::Decode)));
}

#[test]
fn child_failure_forwards_stderr_verbatim() {
    let r = classify_exit(false, b"partial".to_vec(), b"boxes out of range".to_vec());
    match r {
        Err(BridgeError::ChildFailed(e)) => assert_eq!(e, "boxes out of range"),
        other => panic!("unexpected {:?}", other),
    }
}

#[test]
fn child_failure_with_invalid_utf8_stderr() {
    let r = classify_exit(false, vec![], vec![b'x', 0xff]);
    match r {
        Err(BridgeError::ChildFailed(e)) => assert_eq!(e, "x\u{fffd}"),
        other => panic!("unexpected {:?}", other),
    }
}

#[test]
fn large_output_is_returned_whole() {
    let mut out = vec![b'a'; 10 * 1024 * 1024];
    out.push(b'\n');
    let r = classify_exit(true, out, vec![]).unwrap();
    assert_eq!(r.len(), 10 * 1024 * 1024);
    assert!(r.bytes().all(|b| b == b'a'));
}

#[test]
fn identical_runs_give_identical_results() {
    let a = classify_exit(true, b" result \n".to_vec(), b"one".to_vec()).unwrap();
    let b = classify_exit(true, b" result \n".to_vec(), b"two".to_vec()).unwrap();
    assert_eq!(a, b);
}

#[test]
fn missing_interpreter_suggests_installing_it() {
    let r = conclude(ExchangeReport::SpawnFailed("No such file or directory (os error 2)".to_string()));
    match r {
        Err(e @ BridgeError::SpawnFailed(_)) => {
            let m = e.message();
            assert_eq!(
                m,
                "failed to start python3: No such file or directory (os error 2). Install Python 3 and make sure the python3 command is on PATH"
            );
        }
        other => panic!("unexpected {:?}", other),
    }
}

#[test]
fn exchange_failures_are_classified() {
    assert!(matches!(conclude(ExchangeReport::WriteFailed("broken pipe".to_string())), Err(BridgeError::Write(d)) if d == "broken pipe"));
    assert!(matches!(conclude(ExchangeReport::WaitFailed("interrupted".to_string())), Err(BridgeError::Read(d)) if d == "interrupted"));
    let done = conclude(ExchangeReport::Exited { success: true, stdout: b"ok\n".to_vec(), stderr: vec![] });
    assert_eq!(done.unwrap(), "ok");
    let failed = conclude(ExchangeReport::Exited { success: false, stdout: vec![], stderr: b"bad".to_vec() });
    assert!(matches!(failed, Err(BridgeError::ChildFailed(d)) if d == "bad"));
}

#[test]
fn error_messages() {
    assert_eq!(BridgeError::Encode("x".to_string()).message(), "failed to serialize the request: x");
    assert_eq!(BridgeError::Write("x".to_string()).message(), "failed to write the request: x");
    assert_eq!(BridgeError::Read("x".to_string()).message(), "failed to run the component: x");
    assert_eq!(BridgeError::Decode.message(), "the component's output is not valid UTF-8");
    assert_eq!(BridgeError::ChildFailed("boom".to_string()).message(), "the component failed: boom");
    let e = BridgeError::Unresolved(ResolutionError::NotFound(vec![path("/a/python")]));
    assert_eq!(e.message(), "component directory not found; searched: /a/python");
}

#[test]
fn invocation_runs_entry_point_in_component_dir() {
    let ctx = ResolutionContext { working_dir: Some(path("/srv/app")), executable: None, resource_dir: None };
    let found = vec![Probe { dir_exists: true, entry_exists: true }];
    let req = BridgeRequest::new("img".to_string(), boxes(&[["1", "2", "3", "4"]]));
    let call = prepare_call(&ctx, DeploymentMode::Development, &found, &req).unwrap();
    assert_eq!(call.invocation.program, "python3");
    assert_eq!(call.invocation.args, vec!["/srv/app/python/remove_watermark_cli.py".to_string()]);
    assert_eq!(call.invocation.working_dir, "/srv/app/python");
    assert_eq!(call.input, r#"{"image_data":"img","boxes":[[1,2,3,4]]}"#);
    let again = invocation(&call.location);
    assert_eq!(again.args, call.invocation.args);
}

#[test]
fn unresolved_component_stops_the_call() {
    let ctx = ResolutionContext { working_dir: None, executable: None, resource_dir: Some(path("/res")) };
    let req = BridgeRequest::new("img".to_string(), vec![]);
    let r = prepare_call(&ctx, DeploymentMode::Packaged, &vec![], &req);
    match r {
        Err(BridgeError::Unresolved(ResolutionError::NotFound(v))) => {
            assert_eq!(v.len(), 1);
            assert_eq!(v[0].to_text(), "/res/python");
        }
        other => panic!("unexpected {:?}", other),
    }
}

#[test]
fn coordinates_must_be_number_texts() {
    let req = BridgeRequest::new("img".to_string(), boxes(&[["1", "2", "3", "4"], ["5", "6]", "7", "8"]]));
    match encode_request(&req) {
        Err(e @ BridgeError::Encode(_)) => {
            assert_eq!(e.message(), "failed to serialize the request: a coordinate is not a JSON number: 6]")
        }
        other => panic!("unexpected {:?}", other),
    }
    let empty = BridgeRequest::new("img".to_string(), boxes(&[["", "2", "3", "4"]]));
    assert!(matches!(encode_request(&empty), Err(BridgeError::Encode(_))));
}

#[test]
fn wire_helpers() {
    assert!(is_valid_coordinate("-1.5e3"));
    assert!(!is_valid_coordinate(""));
    assert!(!is_valid_coordinate("1,2"));
    assert_eq!(write_array(&vec![]), "[]");
    assert_eq!(write_array(&vec!["a".to_string(), "b".to_string()]), "[a,b]");
}

#[test]
fn encode_escapes_control_characters() {
    let req = BridgeRequest::new("\u{1}\u{8}\t\u{c}\r\u{1f}\u{7f}\u{e9}".to_string(), vec![]);
    assert_eq!(
        encode_request(&req).unwrap(),
        "{\"image_data\":\"\\u0001\\b\\t\\f\\r\\u001f\u{7f}\u{e9}\",\"boxes\":[]}"
    );
}

#[test]
fn unicode_white_space_is_trimmed() {
    let out = "\u{3000}\u{85}\u{a0} ok \u{2029}\u{200a}".as_bytes().to_vec();
    assert_eq!(classify_exit(true, out, vec![]).unwrap(), "ok");
    let kept = "\u{200b}ok".as_bytes().to_vec();
    assert_eq!(classify_exit(true, kept, vec![]).unwrap(), "\u{200b}ok");
}
