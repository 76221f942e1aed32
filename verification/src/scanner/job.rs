//! The job scanner: lists the scheduled jobs (`#[cron]`, `#[fix_delay]`,
//! `#[fix_rate]`) of a project.

use vstd::prelude::*;
use std::io::Error as IoError;
use crate::lsp::{LocationResponse, RangeResponse, range_response};
use crate::macros::{RustDocument, SummerMacro, JobMacro};
use crate::text::nat_digits;

verus! {

/// How a job is scheduled.
#[derive(Debug, Clone, Copy, PartialEq, Eq, Structural)]
pub enum JobType {
    Cron,
    FixDelay,
    FixRate,
}

/// A job as the jobs request reports it.
#[derive(Debug)]
pub struct JobInfoResponse {
    pub name: String,
    pub job_type: JobType,
    pub schedule: String,
    pub location: LocationResponse,
}

/// The parameters of the jobs request.
#[derive(Debug)]
pub struct JobsRequest {
    pub app_path: String,
}

/// The answer to the jobs request.
#[derive(Debug)]
pub struct JobsResponse {
    pub jobs: Vec<JobInfoResponse>,
}

/// Why a scan failed.
#[derive(Debug)]
pub enum ScanError {
    FileRead(IoError),
    InvalidProject(String),
    NoJobs,
}

/// The content of a job entry.
pub struct JobV {
    pub name: Seq<char>,
    pub job_type: JobType,
    pub schedule: Seq<char>,
    pub uri: Seq<char>,
    pub range: RangeResponse,
}

pub open spec fn job_view(j: JobInfoResponse) -> JobV {
    JobV { name: j.name@, job_type: j.job_type, schedule: j.schedule@, uri: j.location.uri@, range: j.location.range }
}

pub open spec fn jobs_view(js: Seq<JobInfoResponse>) -> Seq<JobV> {
    Seq::new(js.len(), |i: int| job_view(js[i]))
}

/// The entry of a job macro: a cron job is scheduled by its expression, a
/// fixed-delay or fixed-rate job by `<seconds> seconds`. A job is named
/// after its function.
pub open spec fn macro_job(uri: Seq<char>, j: JobMacro) -> JobV {
    match j {
        JobMacro::Cron { function_name, expression, range } => JobV {
            name: function_name@,
            job_type: JobType::Cron,
            schedule: expression@,
            uri,
            range: range_response(range),
        },
        JobMacro::FixDelay { function_name, seconds, range } => JobV {
            name: function_name@,
            job_type: JobType::FixDelay,
            schedule: nat_digits(seconds as nat) + " seconds"@,
            uri,
            range: range_response(range),
        },
        JobMacro::FixRate { function_name, seconds, range } => JobV {
            name: function_name@,
            job_type: JobType::FixRate,
            schedule: nat_digits(seconds as nat) + " seconds"@,
            uri,
            range: range_response(range),
        },
    }
}

/// The jobs of a document's macros, in order.
pub open spec fn document_jobs(uri: Seq<char>, ms: Seq<SummerMacro>) -> Seq<JobV>
    decreases ms.len(),
{
    if ms.len() == 0 {
        seq![]
    } else {
        let rest = document_jobs(uri, ms.drop_last());
        match ms.last() {
            SummerMacro::Job(j) => rest.push(macro_job(uri, j)),
            _ => rest,
        }
    }
}

/// The jobs of all documents, in order.
pub open spec fn all_jobs(docs: Seq<RustDocument>) -> Seq<JobV>
    decreases docs.len(),
{
    if docs.len() == 0 {
        seq![]
    } else {
        all_jobs(docs.drop_last()) + document_jobs(docs.last().uri@, docs.last().macros@)
    }
}

fn seconds_text(seconds: u64) -> (s: String)
    ensures
        s@ == nat_digits(seconds as nat) + " seconds"@,
{
    let mut s = crate::text::u64_text(seconds);
    s.append(" seconds");
    s
}

fn job_of(uri: &String, j: &JobMacro) -> (r: JobInfoResponse)
    ensures
        job_view(r) == macro_job(uri@, *j),
{
    match j {
        JobMacro::Cron { function_name, expression, range } => JobInfoResponse {
            name: function_name.clone(),
            job_type: JobType::Cron,
            schedule: expression.clone(),
            location: LocationResponse::from_range(uri, *range),
        },
        JobMacro::FixDelay { function_name, seconds, range } => JobInfoResponse {
            name: function_name.clone(),
            job_type: JobType::FixDelay,
            schedule: seconds_text(*seconds),
            location: LocationResponse::from_range(uri, *range),
        },
        JobMacro::FixRate { function_name, seconds, range } => JobInfoResponse {
            name: function_name.clone(),
            job_type: JobType::FixRate,
            schedule: seconds_text(*seconds),
            location: LocationResponse::from_range(uri, *range),
        },
    }
}

/// Lists a project's jobs.
pub struct JobScanner {}

impl JobScanner {
    pub fn new() -> (r: JobScanner) {
        JobScanner {}
    }

    /// The jobs of a project whose `src` directory holds `documents`; a
    /// project without a `src` directory is refused.
    pub fn scan_jobs(&self, has_src: bool, documents: &Vec<RustDocument>) -> (r: Result<Vec<JobInfoResponse>, ScanError>)
        ensures
            match r {
                Ok(js) => has_src && jobs_view(js@) == all_jobs(documents@),
                Err(e) => !has_src && (e matches ScanError::InvalidProject(m) && m@ == "src directory not found"@),
            },
    {
        if !has_src {
            return Err(ScanError::InvalidProject(String::from_str("src directory not found")));
        }
        let mut out: Vec<JobInfoResponse> = Vec::new();
        let mut d: usize = 0;
        while d < documents.len()
            invariant
                d <= documents@.len(),
                jobs_view(out@) == all_jobs(documents@.subrange(0, d as int)),
            decreases documents@.len() - d,
        {
            let doc = &documents[d];
            let ghost before_doc = jobs_view(out@);
            let mut k: usize = 0;
            while k < doc.macros.len()
                invariant
                    k <= doc.macros@.len(),
                    jobs_view(out@) == before_doc + document_jobs(doc.uri@, doc.macros@.subrange(0, k as int)),
                decreases doc.macros@.len() - k,
            {
                proof {
                    assert(doc.macros@.subrange(0, k + 1).drop_last() =~= doc.macros@.subrange(0, k as int));
                }
                let ghost before = out@;
                match &doc.macros[k] {
                    SummerMacro::Job(j) => {
                        let entry = job_of(&doc.uri, j);
                        out.push(entry);
                        proof {
                            assert(jobs_view(out@) =~= jobs_view(before).push(job_view(entry)));
                        }
                    },
                    _ => {},
                }
                proof {
                    assert(before_doc + document_jobs(doc.uri@, doc.macros@.subrange(0, k + 1)) =~= jobs_view(out@));
                }
                k = k + 1;
            }
            proof {
                assert(doc.macros@.subrange(0, doc.macros@.len() as int) =~= doc.macros@);
                assert(documents@.subrange(0, d + 1).drop_last() =~= documents@.subrange(0, d as int));
            }
            d = d + 1;
        }
        proof {
            assert(documents@.subrange(0, documents@.len() as int) =~= documents@);
        }
        Ok(out)
    }
}

impl Default for JobScanner {
    fn default() -> (r: JobScanner) {
        JobScanner::new()
    }
}

} // verus!
