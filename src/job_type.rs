//! What a job does, and the outside work that each kind of action asks for.
use vstd::prelude::*;
use vstd::string::StringExecFns;
use vstd::utf8::{decode_utf8, valid_utf8};
use crate::codec::{encode_payload, strings_view, Payload};
use crate::error::Error;
use crate::plugin::{plugin_answer, plugin_input, plugin_input_fits, plugin_result};

verus! {

/// The HTTP method of a web request.
#[derive(Debug, Clone, Copy, PartialEq, Eq, Structural, Default)]
pub enum WebRequestType {
    #[default]
    Get,
    Post,
}

/// The action of a job.
#[derive(Debug, Clone, PartialEq, Eq, Default)]
pub enum JobType {
    /// Does nothing and acknowledges it.
    #[default]
    Noop,
    /// Calls `function_name` of the plugin module in `file_name`.
    Wasm { function_name: String, file_name: String },
    /// Runs `command` through bash, with `{INPUT}` replaced by the inputs.
    Bash { command: String },
    /// Fetches `url` and answers with the body.
    WebRequest { url: String, req_type: WebRequestType },
}

/// Outside work that an action needs done.
#[derive(Debug, Clone)]
pub enum Request {
    /// Run `command` with `bash -c` and capture its output.
    Shell { command: String },
    /// Send a request without a body to `url`.
    Http { url: String, method: WebRequestType },
    /// Call `function_name` of the plugin module in `file_name` with the framed `payload`.
    Plugin { function_name: String, file_name: String, payload: Vec<u8> },
}

/// What the outside work gave back.
#[derive(Debug, Clone)]
pub enum Response {
    /// The shell's exit status was zero (`success`), and what it printed.
    Shell { success: bool, stdout: Vec<u8>, stderr: Vec<u8> },
    /// The body of an HTTP response.
    Body { body: String },
    /// The bytes of the plugin's answer, read from its memory.
    Plugin { output: Vec<u8> },
}

/// The placeholder in a shell command that stands for the inputs.
pub open spec fn input_marker() -> Seq<char> {
    "{INPUT}"@
}

/// What a no-op answers.
pub open spec fn noop_message() -> Seq<char> {
    "Noop has been hit!"@
}

/// The strings of `v` with `sep` between each two.
pub open spec fn join_spec(v: Seq<Seq<char>>, sep: Seq<char>) -> Seq<char>
    decreases v.len(),
{
    if v.len() == 0 {
        seq![]
    } else if v.len() == 1 {
        v[0]
    } else {
        join_spec(v.drop_last(), sep) + sep + v.last()
    }
}

/// `s` with each match of `pat`, taken from the left without overlap, replaced by `rep`.
pub open spec fn replace_spec(s: Seq<char>, pat: Seq<char>, rep: Seq<char>) -> Seq<char>
    decreases s.len(),
{
    if pat.len() == 0 || s.len() < pat.len() {
        s
    } else if s.take(pat.len() as int) == pat {
        rep + replace_spec(s.skip(pat.len() as int), pat, rep)
    } else {
        seq![s[0]] + replace_spec(s.skip(1), pat, rep)
    }
}

/// The command that a shell action runs on `inputs`.
pub open spec fn shell_command(command: Seq<char>, inputs: Seq<Seq<char>>) -> Seq<char> {
    replace_spec(command, input_marker(), join_spec(inputs, " "@))
}

/// The text of a byte buffer, with each invalid UTF-8 sequence replaced.
pub uninterp spec fn lossy_utf8(b: Seq<u8>) -> Seq<char>;

/// Relies on `str::replace`: each match of `from`, found from the left without
/// overlap, is replaced by `to`.
#[verifier::external_body]
fn replace_all(s: &str, from: &str, to: &str) -> (r: String)
    requires
        from@.len() > 0,
    ensures
        r@ == replace_spec(s@, from@, to@),
{
    s.replace(from, to)
}

/// Relies on `String::from_utf8_lossy`: the text of the bytes, unchanged where
/// they are valid UTF-8.
#[verifier::external_body]
fn lossy_string(b: &[u8]) -> (r: String)
    ensures
        r@ == lossy_utf8(b@),
        valid_utf8(b@) ==> r@ == decode_utf8(b@),
{
    String::from_utf8_lossy(b).to_string()
}

/// The inputs joined by single spaces.
pub fn join_inputs(v: &[String]) -> (r: String)
    ensures
        r@ == join_spec(strings_view(v@), " "@),
{
    let ghost sv = strings_view(v@);
    let mut out = String::new();
    let mut i: usize = 0;
    while i < v.len()
        invariant
            i <= v@.len(),
            sv == strings_view(v@),
            out@ == join_spec(sv.take(i as int), " "@),
        decreases v@.len() - i,
    {
        assert(sv.take(i + 1).drop_last() =~= sv.take(i as int));
        if i > 0 {
            out.append(" ");
        } else {
            assert(out@ + sv[0] =~= sv[0]);
        }
        out.append(v[i].as_str());
        i = i + 1;
    }
    assert(sv.take(i as int) =~= sv);
    out
}

/// Whether `q` is the outside work that `jt` asks for on `inputs`.
pub open spec fn request_for(jt: JobType, inputs: Seq<Seq<char>>, q: Request) -> bool {
    match jt {
        JobType::Noop => false,
        JobType::Bash { command } => match q {
            Request::Shell { command: c } => c@ == shell_command(command@, inputs),
            _ => false,
        },
        JobType::WebRequest { url, req_type } => match q {
            Request::Http { url: u, method } => u@ == url@ && method == req_type,
            _ => false,
        },
        JobType::Wasm { function_name, file_name } => match q {
            Request::Plugin { function_name: f, file_name: m, payload } => f@ == function_name@
                && m@ == file_name@ && payload@ == encode_payload(Payload::Inputs(inputs)),
            _ => false,
        },
    }
}

/// Whether `r` is what `jt` makes of the answer `a` to its request.
pub open spec fn answer_for(jt: JobType, a: Result<Response, Error>, r: Result<String, Error>) -> bool {
    match a {
        Err(e) => r == Err::<String, Error>(e),
        Ok(resp) => match (jt, resp) {
            (JobType::Bash { .. }, Response::Shell { success, stdout, stderr }) => if success {
                r is Ok && r->Ok_0@ == lossy_utf8(stdout@)
            } else {
                match r {
                    Err(Error::Bash { e }) => e@ == lossy_utf8(stderr@),
                    _ => false,
                }
            },
            (JobType::WebRequest { .. }, Response::Body { body }) => r is Ok && r->Ok_0@ == body@,
            (JobType::Wasm { .. }, Response::Plugin { output }) => plugin_answer(output@, r),
            _ => r is Err && r->Err_0 is Io,
        },
    }
}

/// Whether `r` is a result that running `jt` on `inputs` through `host` can give.
pub open spec fn executes_to<F: Fn(Request) -> Result<Response, Error>>(
    jt: JobType,
    inputs: Seq<Seq<char>>,
    host: F,
    r: Result<String, Error>,
) -> bool {
    if jt is Noop {
        r is Ok && r->Ok_0@ == noop_message()
    } else if jt is Wasm && !plugin_input_fits(inputs) {
        r is Err && r->Err_0 is WasmMemoryAccess
    } else {
        exists|q: Request, a: Result<Response, Error>|
            request_for(jt, inputs, q) && #[trigger] host.ensures((q,), a) && answer_for(jt, a, r)
    }
}

impl JobType {
    pub fn new_bash(command: &str) -> (r: Self)
        ensures
            match r {
                JobType::Bash { command: c } => c@ == command@,
                _ => false,
            },
    {
        JobType::Bash { command: String::from_str(command) }
    }

    pub fn new_wasm(function_name: &str, file_name: &str) -> (r: Self)
        ensures
            match r {
                JobType::Wasm { function_name: f, file_name: m } => f@ == function_name@ && m@
                    == file_name@,
                _ => false,
            },
    {
        JobType::Wasm {
            function_name: String::from_str(function_name),
            file_name: String::from_str(file_name),
        }
    }

    pub fn new_web_request(url: &str, req_type: WebRequestType) -> (r: Self)
        ensures
            match r {
                JobType::WebRequest { url: u, req_type: t } => u@ == url@ && t == req_type,
                _ => false,
            },
    {
        JobType::WebRequest { url: String::from_str(url), req_type }
    }

    /// The shell request: the command with `{INPUT}` replaced by the space-joined inputs.
    pub fn execute_bash(command: &str, inputs: &[String]) -> (r: Request)
        ensures
            match r {
                Request::Shell { command: c } => c@ == shell_command(command@, strings_view(inputs@)),
                _ => false,
            },
    {
        let joined = join_inputs(inputs);
        proof {
            reveal_strlit("{INPUT}");
        }
        Request::Shell { command: replace_all(command, "{INPUT}", joined.as_str()) }
    }

    /// The HTTP request; the inputs are not sent.
    pub fn execute_web_request(url: &str, req_type: WebRequestType, _inputs: &[String]) -> (r:
        Request)
        ensures
            match r {
                Request::Http { url: u, method } => u@ == url@ && method == req_type,
                _ => false,
            },
    {
        Request::Http { url: String::from_str(url), method: req_type }
    }

    /// The plugin request, with the inputs framed as an `Inputs` message.
    pub fn execute_wasm(function_name: &str, file_name: &str, inputs: &[String]) -> (r: Result<
        Request,
        Error,
    >)
        ensures
            r is Ok <==> plugin_input_fits(strings_view(inputs@)),
            r is Ok ==> match r->Ok_0 {
                Request::Plugin { function_name: f, file_name: m, payload } => f@ == function_name@
                    && m@ == file_name@ && payload@ == encode_payload(
                    Payload::Inputs(strings_view(inputs@)),
                ),
                _ => false,
            },
            r is Err ==> r->Err_0 is WasmMemoryAccess,
    {
        let payload = plugin_input(inputs)?;
        Ok(
            Request::Plugin {
                function_name: String::from_str(function_name),
                file_name: String::from_str(file_name),
                payload,
            },
        )
    }

    /// The outside work that this action asks for on `inputs`: none for a no-op,
    /// and an error for a plugin input that is too large.
    pub fn request(&self, inputs: &[String]) -> (r: Result<Option<Request>, Error>)
        ensures
            r is Ok <==> !(self is Wasm && !plugin_input_fits(strings_view(inputs@))),
            r is Ok ==> (r->Ok_0 is None <==> self is Noop),
            r is Ok && r->Ok_0 is Some ==> request_for(*self, strings_view(inputs@), r->Ok_0->Some_0),
            r is Err ==> r->Err_0 is WasmMemoryAccess,
    {
        match self {
            JobType::Noop => Ok(None),
            JobType::Wasm { function_name, file_name } => {
                let q = JobType::execute_wasm(function_name.as_str(), file_name.as_str(), inputs)?;
                Ok(Some(q))
            },
            JobType::Bash { command } => Ok(Some(JobType::execute_bash(command.as_str(), inputs))),
            JobType::WebRequest { url, req_type } => Ok(
                Some(JobType::execute_web_request(url.as_str(), *req_type, inputs)),
            ),
        }
    }

    /// The action's result, from the answer to its request.
    pub fn conclude(&self, answer: Result<Response, Error>) -> (r: Result<String, Error>)
        ensures
            answer_for(*self, answer, r),
    {
        let resp = match answer {
            Err(e) => {
                return Err(e);
            },
            Ok(resp) => resp,
        };
        match (self, resp) {
            (JobType::Bash { .. }, Response::Shell { success, stdout, stderr }) => {
                if success {
                    Ok(lossy_string(stdout.as_slice()))
                } else {
                    Err(Error::Bash { e: lossy_string(stderr.as_slice()) })
                }
            },
            (JobType::WebRequest { .. }, Response::Body { body }) => Ok(body),
            (JobType::Wasm { .. }, Response::Plugin { output }) => plugin_result(output.as_slice()),
            _ => Err(
                Error::Io { e: String::from_str("the answer does not belong to the request") },
            ),
        }
    }

    /// Runs the action on `inputs`, handing its outside work to `host`.
    /// The fixed inputs are carried through and not read.
    pub fn execute<F: Fn(Request) -> Result<Response, Error>>(
        &self,
        _fixed_inputs: &[String],
        inputs: &[String],
        host: &F,
    ) -> (r: Result<String, Error>)
        requires
            forall|q: Request| host.requires((q,)),
        ensures
            executes_to(*self, strings_view(inputs@), *host, r),
    {
        match self.request(inputs) {
            Err(e) => Err(e),
            Ok(None) => Ok(String::from_str("Noop has been hit!")),
            Ok(Some(q)) => {
                let ghost gq = q;
                let a = host(q);
                let r = self.conclude(a);
                assert(request_for(*self, strings_view(inputs@), gq) && host.ensures((gq,), a)
                    && answer_for(*self, a, r));
                r
            },
        }
    }
}

} // verus!
