//! Audit logging of model requests, responses and errors. Assembling the log
//! file name and content is exact, verified string work; writing the file is
//! the caller's concern and must stay best-effort: a failed write is a
//! warning, never a failure of the analysis itself.

use vstd::prelude::*;
use vstd::string::StrSliceExecFns;
use vstd::string::StringExecFns;
use vstd::string::StringSliceAdditionalSpecFns;

use crate::text::{dec_rep, lines_count, nl_count, u64_to_string};

verus! {

/// The separator line between log sections.
pub const LOG_RULE: &'static str = "================================================================================\n";

/// Writes request, response and error artifacts for audit, keyed by a
/// millisecond-precision timestamp chosen by the caller.
pub struct Logger {
    pub log_dir: String,
}

/// The content of one request log: the timestamp and file URL, then the
/// system prompt, the user prompt, and the serialized request payload.
pub open spec fn request_log_view(
    timestamp: Seq<char>,
    file_url: Seq<char>,
    system_prompt: Seq<char>,
    user_prompt: Seq<char>,
    request_json: Seq<char>,
) -> Seq<char> {
    LOG_RULE@ + "LLM Request Log\n"@ + LOG_RULE@ + "Timestamp: "@ + timestamp + "\nFile URL: "@
        + file_url + "\n\n"@ + LOG_RULE@ + "System Prompt\n"@ + LOG_RULE@ + system_prompt
        + "\n\n"@ + LOG_RULE@ + "User Prompt\n"@ + LOG_RULE@ + user_prompt + "\n\n"@ + LOG_RULE@
        + "Request Payload (JSON)\n"@ + LOG_RULE@ + request_json + "\n"@
}

/// The content of one response log: the timestamp, the byte length and line
/// count of the model's output, then the output itself.
pub open spec fn response_log_view(
    timestamp: Seq<char>,
    content_bytes: int,
    content: Seq<char>,
) -> Seq<char> {
    LOG_RULE@ + "LLM Response Log\n"@ + LOG_RULE@ + "Timestamp: "@ + timestamp
        + "\nContent Length: "@ + dec_rep(content_bytes) + " chars\nContent Lines: "@
        + dec_rep(lines_count(content)) + "\n\n"@ + LOG_RULE@ + "Response Content\n"@ + LOG_RULE@
        + content + "\n"@
}

/// The content of one error log: the timestamp and a context line, then the
/// error details.
pub open spec fn error_log_view(
    timestamp: Seq<char>,
    context: Seq<char>,
    error: Seq<char>,
) -> Seq<char> {
    LOG_RULE@ + "Error Log\n"@ + LOG_RULE@ + "Timestamp: "@ + timestamp + "\nContext: "@ + context
        + "\n\n"@ + LOG_RULE@ + "Error Details\n"@ + LOG_RULE@ + error + "\n"@
}

impl Logger {
    /// A logger that files everything under `log_dir`.
    pub fn new(log_dir: &str) -> (r: Logger)
        ensures
            r.log_dir@ == log_dir@,
    {
        Logger { log_dir: log_dir.to_owned() }
    }

    /// The file a log entry goes to: `<dir>/<prefix><timestamp>.log`.
    pub fn log_file_path(&self, prefix: &str, timestamp: &str) -> (r: String)
        ensures
            r@ == self.log_dir@ + "/"@ + prefix@ + timestamp@ + ".log"@,
    {
        let mut s = self.log_dir.clone();
        s.append("/");
        s.append(prefix);
        s.append(timestamp);
        s.append(".log");
        proof {
            assert(s@ =~= self.log_dir@ + "/"@ + prefix@ + timestamp@ + ".log"@);
        }
        s
    }

    /// Assembles the content of a request log entry.
    pub fn request_log_content(
        timestamp: &str,
        file_url: &str,
        system_prompt: &str,
        user_prompt: &str,
        request_json: &str,
    ) -> (r: String)
        ensures
            r@ == request_log_view(timestamp@, file_url@, system_prompt@, user_prompt@,
                request_json@),
    {
        let mut s = String::from_str(LOG_RULE);
        s.append("LLM Request Log\n");
        s.append(LOG_RULE);
        s.append("Timestamp: ");
        s.append(timestamp);
        s.append("\nFile URL: ");
        s.append(file_url);
        s.append("\n\n");
        s.append(LOG_RULE);
        s.append("System Prompt\n");
        s.append(LOG_RULE);
        s.append(system_prompt);
        s.append("\n\n");
        s.append(LOG_RULE);
        s.append("User Prompt\n");
        s.append(LOG_RULE);
        s.append(user_prompt);
        s.append("\n\n");
        s.append(LOG_RULE);
        s.append("Request Payload (JSON)\n");
        s.append(LOG_RULE);
        s.append(request_json);
        s.append("\n");
        proof {
            assert(s@ =~= request_log_view(timestamp@, file_url@, system_prompt@, user_prompt@,
                request_json@));
        }
        s
    }

    /// Assembles the content of a response log entry.
    pub fn response_log_content(timestamp: &str, content: &str) -> (r: String)
        ensures
            r@ == response_log_view(timestamp@, content.spec_bytes().len() as usize as int,
                content@),
    {
        let byte_len: usize = content.len();
        let lines = count_lines(content);
        let mut s = String::from_str(LOG_RULE);
        s.append("LLM Response Log\n");
        s.append(LOG_RULE);
        s.append("Timestamp: ");
        s.append(timestamp);
        s.append("\nContent Length: ");
        let bl = u64_to_string(byte_len as u64);
        s.append(bl.as_str());
        s.append(" chars\nContent Lines: ");
        let lc = u64_to_string(lines as u64);
        s.append(lc.as_str());
        s.append("\n\n");
        s.append(LOG_RULE);
        s.append("Response Content\n");
        s.append(LOG_RULE);
        s.append(content);
        s.append("\n");
        proof {
            assert(bl@ == dec_rep(byte_len as int));
            assert(lc@ == dec_rep(lines_count(content@)));
            assert(s@ =~= response_log_view(timestamp@,
                content.spec_bytes().len() as usize as int, content@));
        }
        s
    }

    /// Assembles the content of an error log entry.
    pub fn error_log_content(timestamp: &str, context: &str, error: &str) -> (r: String)
        ensures
            r@ == error_log_view(timestamp@, context@, error@),
    {
        let mut s = String::from_str(LOG_RULE);
        s.append("Error Log\n");
        s.append(LOG_RULE);
        s.append("Timestamp: ");
        s.append(timestamp);
        s.append("\nContext: ");
        s.append(context);
        s.append("\n\n");
        s.append(LOG_RULE);
        s.append("Error Details\n");
        s.append(LOG_RULE);
        s.append(error);
        s.append("\n");
        proof {
            assert(s@ =~= error_log_view(timestamp@, context@, error@));
        }
        s
    }
}

/// How many lines `s` has, counted as text editors do: a trailing newline
/// ends the last line instead of opening a new one.
pub fn count_lines(s: &str) -> (r: usize)
    ensures
        r == lines_count(s@),
{
    let v = crate::text::chars_of(s);
    if v.len() == 0 {
        return 0;
    }
    let mut n: usize = 1;
    let mut i: usize = 0;
    let end = v.len() - 1;
    while i < end
        invariant
            v@.len() > 0,
            v@.len() <= usize::MAX,
            i <= end == v@.len() - 1,
            n == 1 + nl_count(v@.subrange(0, i as int)),
            n <= i + 1,
        decreases end - i,
    {
        if v[i] == '\n' {
            n += 1;
        }
        i += 1;
        proof {
            let pre = v@.subrange(0, i as int);
            assert(pre.drop_last() =~= v@.subrange(0, i - 1));
        }
    }
    proof {
        assert(v@.subrange(0, end as int) =~= v@.drop_last());
    }
    n
}

} // verus!
