use waterflow::codec::{get_input_strings, pack_into_output, CodecError, Communication};
use waterflow::error::Error;
use waterflow::job::Job;
use waterflow::job_type::{join_inputs, JobType, Request, Response, WebRequestType};
use waterflow::pipeline::Pipeline;
use waterflow::plugin::{output_region, plan_plugin_call, plugin_input, plugin_result};

fn strings(v: &[&str]) -> Vec<String> {
    v.iter().map(|s| s.to_string()).collect()
}

/// A stand-in for a plugin that exports `reverse_join` and `inputs_back`.
fn stub_plugin(q: Request) -> Result<Response, Error> {
    match q {
        Request::Plugin { function_name, payload, .. } => {
            let input = get_input_strings(&payload).expect("an Inputs message");
            let output = match function_name.as_str() {
                "reverse_join" => {
                    pack_into_output(input.into_iter().rev().collect::<Vec<_>>().join(", "))
                }
                "inputs_back" => Communication::Inputs(input).to_bytes(),
                other => panic!("unknown export {other}"),
            };
            Ok(Response::Plugin { output })
        }
        other => panic!("unexpected request {other:?}"),
    }
}

#[test]
fn plugin_reverse_join() {
    let job = JobType::new_wasm("reverse_join", "plugin.wasm");
    let r = job.execute(&[], &strings(&["x", "y"]), &stub_plugin);
    assert_eq!(r.unwrap(), "y, x");
    let bytes = pack_into_output("y, x".to_string());
    assert!(matches!(Communication::from_bytes(&bytes), Ok(Communication::Output(s)) if s == "y, x"));
}

#[test]
fn plugin_type_mismatch_fails_the_job() {
    let x = Job::new("x", JobType::new_bash("echo -n 'x'"));
    let mut p = Job::new("p", JobType::new_wasm("inputs_back", "plugin.wasm"));
    p.add_dependency(x.get_id());
    let p_id = p.get_id();
    let mut pipeline = Pipeline::new();
    pipeline.add_jobs(vec![x, p]);
    let host = |q: Request| -> Result<Response, Error> {
        match q {
            Request::Shell { .. } => Ok(Response::Shell {
                success: true,
                stdout: b"x".to_vec(),
                stderr: Vec::new(),
            }),
            q => stub_plugin(q),
        }
    };
    pipeline.execute(&host).unwrap();
    let p = pipeline.get_job(p_id);
    assert!(p.get_status().is_failed());
    assert_eq!(p.output, "WASM module returned the wrong type");
}

#[test]
fn plugin_result_decodes_or_reports() {
    let ok = pack_into_output("done".to_string());
    assert_eq!(plugin_result(&ok).unwrap(), "done");
    let wrong = Communication::Inputs(strings(&["a"])).to_bytes();
    assert!(matches!(plugin_result(&wrong), Err(Error::WasmWrongTypeReturned)));
    assert!(matches!(
        plugin_result(&[3]),
        Err(Error::ByparParse { e: CodecError::UnknownTag { tag: 3 } })
    ));
}

#[test]
fn plugin_request_carries_framed_inputs() {
    let job = JobType::new_wasm("f", "m.wasm");
    match job.request(&strings(&["x"])) {
        Ok(Some(Request::Plugin { function_name, file_name, payload })) => {
            assert_eq!(function_name, "f");
            assert_eq!(file_name, "m.wasm");
            assert_eq!(payload, [0, 1, 0, 0, 0, 1, 0, 0, 0, b'x']);
        }
        other => panic!("unexpected {other:?}"),
    }
    assert_eq!(plugin_input(&strings(&["x"])).unwrap(), [0, 1, 0, 0, 0, 1, 0, 0, 0, b'x']);
}

#[test]
fn growth_covers_the_input() {
    let call = plan_plugin_call(131072, 0).unwrap();
    assert_eq!((call.input_ptr, call.input_len, call.grow_pages), (131072, 0, 1));
    assert_eq!(plan_plugin_call(0, 65536).unwrap().grow_pages, 2);
    assert_eq!(plan_plugin_call(0, 65537).unwrap().grow_pages, 3);
    assert_eq!(plan_plugin_call(0, 10).unwrap().grow_pages, 2);
    assert!(matches!(
        plan_plugin_call(0, 2147483648),
        Err(Error::WasmMemoryAccess { .. })
    ));
    assert!(matches!(
        plan_plugin_call(2147483648, 1),
        Err(Error::WasmMemoryAccess { .. })
    ));
    assert!(plan_plugin_call(2147483647, 2147483647).is_ok());
}

#[test]
fn output_region_is_checked() {
    assert_eq!(output_region(100, 10, 90).unwrap(), (10, 90));
    assert!(matches!(output_region(100, 10, 91), Err(Error::WasmMemoryAccess { .. })));
    assert!(matches!(output_region(100, -1, 1), Err(Error::WasmMemoryAccess { .. })));
    assert!(matches!(output_region(100, 0, -5), Err(Error::WasmMemoryAccess { .. })));
}

#[test]
fn shell_command_substitutes_every_placeholder() {
    let r = JobType::execute_bash("echo '{INPUT}' && echo '{INPUT}'", &strings(&["a", "b"]));
    match r {
        Request::Shell { command } => assert_eq!(command, "echo 'a b' && echo 'a b'"),
        other => panic!("unexpected {other:?}"),
    }
    match JobType::execute_bash("echo {INPUT", &strings(&["a"])) {
        Request::Shell { command } => assert_eq!(command, "echo {INPUT"),
        other => panic!("unexpected {other:?}"),
    }
}

#[test]
fn inputs_join_with_single_spaces() {
    assert_eq!(join_inputs(&strings(&["Hello", "World!"])), "Hello World!");
    assert_eq!(join_inputs(&strings(&[])), "");
    assert_eq!(join_inputs(&strings(&["one"])), "one");
}

#[test]
fn shell_output_is_decoded_lossily() {
    let job = JobType::new_bash("anything");
    let r = job.conclude(Ok(Response::Shell {
        success: true,
        stdout: vec![b'o', 0xFF, b'k'],
        stderr: Vec::new(),
    }));
    assert_eq!(r.unwrap(), "o\u{FFFD}k");
    let r = job.conclude(Ok(Response::Shell {
        success: false,
        stdout: Vec::new(),
        stderr: b"boom".to_vec(),
    }));
    assert!(matches!(r, Err(Error::Bash { e }) if e == "boom"));
}

#[test]
fn web_request_returns_body() {
    let job = JobType::new_web_request("http://example.invalid/", WebRequestType::Post);
    let host = |q: Request| -> Result<Response, Error> {
        match q {
            Request::Http { url, method } => {
                assert_eq!(url, "http://example.invalid/");
                assert_eq!(method, WebRequestType::Post);
                Ok(Response::Body { body: "payload".to_string() })
            }
            other => panic!("unexpected {other:?}"),
        }
    };
    assert_eq!(job.execute(&[], &[], &host).unwrap(), "payload");
    let failing = |_: Request| -> Result<Response, Error> {
        Err(Error::WebRequest { e: "refused".to_string() })
    };
    assert!(matches!(job.execute(&[], &[], &failing), Err(Error::WebRequest { .. })));
}

#[test]
fn mismatched_answer_is_an_io_error() {
    let job = JobType::new_bash("x");
    let r = job.conclude(Ok(Response::Body { body: String::new() }));
    assert!(matches!(r, Err(Error::Io { .. })));
}

#[test]
fn error_messages() {
    assert_eq!(Error::Bash { e: "x".to_string() }.message(), "Bash execution failed! x");
    assert_eq!(Error::WasmWrongTypeReturned.message(), "WASM module returned the wrong type");
    assert_eq!(
        Error::ByparParse { e: CodecError::Truncated }.message(),
        "An error occured while trying to parse packets: buffer too short"
    );
}
