use vstd::prelude::*;
use crate::error::ChumError;
use crate::render::{fmt_write_failure, write_failure_line};
use crate::rng::{random_bytes, random_index};
use crate::worker::{Operation, WorkerInfo};

verus! {

/// Relies on uuid's `Uuid::new_v4` and its hyphenated rendering: a fresh
/// identifier always renders as 36 characters. The identifier is random,
/// so nothing more is promised of it.
#[verifier::external_body]
fn new_object_id() -> (r: String)
    ensures
        r@.len() == 36,
{
    uuid::Uuid::new_v4().to_string()
}

/// Everything one upload needs: a fresh object identifier, the path the
/// object is tracked under, the request URL, and the chosen size.
pub struct UploadPlan {
    pub id: String,
    pub path: String,
    pub url: String,
    pub size: u64,
}

/// The write path of a worker: it owns the payload buffer and the size
/// distribution, plans each upload, and judges the response. The HTTP
/// transfer itself is the caller's, outside this crate.
pub struct Writer {
    target: String,
    distr: Vec<u64>,
    buf: Vec<u8>,
}

impl Writer {
    pub closed spec fn target_spec(&self) -> Seq<char> {
        self.target@
    }

    pub closed spec fn distr_spec(&self) -> Seq<u64> {
        self.distr@
    }

    pub closed spec fn buf_spec(&self) -> Seq<u8> {
        self.buf@
    }

    pub open spec fn wf(&self) -> bool {
        self.distr_spec().len() >= 1 && self.buf_spec().len() == 65536
    }

    /// Construct a writer for a target address and a non-empty size
    /// distribution pool; the payload buffer holds 64 KiB of random
    /// data, the data sent to the target.
    pub fn new(target: String, distr: Vec<u64>) -> (w: Writer)
        requires
            distr@.len() >= 1,
        ensures
            w.wf(),
            w.target_spec() == target@,
            w.distr_spec() == distr@,
    {
        let buf = random_bytes(65536);
        Writer { target, distr, buf }
    }

    /// The payload bytes an upload of `size` draws from.
    pub fn buffer(&self) -> (r: &Vec<u8>)
        ensures
            r@ == self.buf_spec(),
    {
        &self.buf
    }

    /// Choose an upload size uniformly from the distribution pool;
    /// repetition in the pool encodes relative weight.
    pub fn pick_size(&self) -> (s: u64)
        requires
            self.wf(),
        ensures
            self.distr_spec().contains(s),
    {
        let i = random_index(self.distr.len());
        let s = self.distr[i];
        proof {
            assert(self.distr_spec()[i as int] == s);
        }
        s
    }

    /// Plan one upload: a fresh object identifier, the tracked path
    /// under the target directory, the PUT URL, and a sampled size.
    pub fn prepare_upload(&self) -> (p: UploadPlan)
        requires
            self.wf(),
        ensures
            p.id@.len() == 36,
            p.path@ == "chum/"@ + p.id@,
            p.url@ == "http://"@ + self.target_spec() + ":80/"@ + p.path@,
            self.distr_spec().contains(p.size),
    {
        let id = new_object_id();
        let mut path = "chum/".to_owned();
        path.append(id.as_str());
        let mut url = "http://".to_owned();
        url.append(self.target.as_str());
        url.append(":80/");
        url.append(path.as_str());
        let size = self.pick_size();
        UploadPlan { id, path, url, size }
    }

    /// Judge one finished upload by its response code: 201 (created) and
    /// 204 (overwritten) yield the operation record; any other code is
    /// the typed failure naming the path and the code.
    pub fn write_outcome(
        &self,
        worker_id: u64,
        path: &str,
        size: u64,
        code: u32,
        ttfb: u64,
        rtt: u64,
    ) -> (r: Result<Option<WorkerInfo>, ChumError>)
        ensures
            code == 201 || code == 204 ==> (r matches Ok(Some(w)) && w == (WorkerInfo {
                id: worker_id,
                op: Operation::Write,
                size,
                ttfb,
                rtt,
            })),
            !(code == 201 || code == 204) ==> (r matches Err(e) && e@ == write_failure_line(
                path@,
                code,
            )),
    {
        if code == 201 || code == 204 {
            Ok(
                Some(
                    WorkerInfo {
                        id: worker_id,
                        op: Operation::Write,
                        size,
                        ttfb,
                        rtt,
                    },
                ),
            )
        } else {
            Err(ChumError::from_string(fmt_write_failure(path, code)))
        }
    }

    /// The operation kind this writer performs.
    pub fn get_type(&self) -> (r: &'static str)
        ensures
            r@ == "write"@,
    {
        "write"
    }
}

} // verus!
