//! Pulling the escrow: the owned endpoints, the page-by-page decisions of a
//! paginated read, and the canonical document they accumulate into.

use vstd::prelude::*;
use crate::text::{chars_of, put, put_chars, replace, replace_of, string_from, trim, trim_slice};
use crate::json::{as_array, as_str, get, jarray, jget, jstr, json_parse, jv, jv_entries, jv_list, parse_json, copy_json, lemma_jv_list, Json, JVal};
use crate::netbox::canonical::{canonical, canonicalize_objects};
use crate::netbox::logical::{set_entry, set_entry_of};

verus! {

/// The endpoints NetBox owns as source of truth. The escrow key is the
/// endpoint path with `/` replaced by `.` — stable, greppable.
/// Deliberately excluded: `users/*` (credentials never land in git).
pub const ENDPOINTS: [&'static str; 16] = [
    "dcim/sites",
    "dcim/manufacturers",
    "dcim/device-types",
    "dcim/device-roles",
    "dcim/devices",
    "dcim/interfaces",
    "dcim/inventory-items",
    "ipam/prefixes",
    "ipam/ip-addresses",
    "ipam/vlans",
    "virtualization/cluster-types",
    "virtualization/clusters",
    "virtualization/virtual-machines",
    "virtualization/interfaces",
    "extras/custom-fields",
    "extras/custom-field-choice-sets",
];

/// An endpoint's escrow key: its path with `/` replaced by `.`.
pub open spec fn escrow_key_spec(endpoint: Seq<char>) -> Seq<char> {
    replace(endpoint, "/"@, "."@)
}

/// An endpoint's escrow key: its path with `/` replaced by `.`.
pub fn escrow_key(endpoint: &str) -> (r: String)
    ensures
        r@ == escrow_key_spec(endpoint@),
{
    proof {
        reveal_strlit("/");
    }
    string_from(replace_of(chars_of(endpoint).as_slice(), chars_of("/").as_slice(), chars_of(".").as_slice()).as_slice())
}

/// A token file's content as a token: trimmed, and nothing when blank.
pub open spec fn token_of(text: Seq<char>) -> Option<Seq<char>> {
    if trim(text).len() > 0 {
        Some(trim(text))
    } else {
        None
    }
}

/// A token file's content as a token: trimmed, and nothing when blank.
pub fn token_from(text: &str) -> (r: Option<String>)
    ensures
        r.deep_view() == token_of(text@),
{
    let c = chars_of(text);
    let t = trim_slice(c.as_slice());
    if t.len() == 0 {
        None
    } else {
        Some(string_from(t))
    }
}

/// A base URL without its trailing slashes.
pub open spec fn without_trailing_slashes(s: Seq<char>) -> Seq<char>
    decreases s.len(),
{
    if s.len() > 0 && s.last() == '/' {
        without_trailing_slashes(s.drop_last())
    } else {
        s
    }
}

/// A base URL without its trailing slashes (`trim_end_matches('/')`).
pub fn base_of(base_url: &str) -> (r: String)
    ensures
        r@ == without_trailing_slashes(base_url@),
{
    let c = chars_of(base_url);
    let mut n: usize = c.len();
    assert(c@.take(n as int) =~= c@);
    while n > 0 && c[n - 1] == '/'
        invariant
            n <= c@.len(),
            without_trailing_slashes(c@) == without_trailing_slashes(c@.take(n as int)),
        decreases n,
    {
        assert(c@.take(n as int).drop_last() =~= c@.take(n - 1));
        n = n - 1;
    }
    string_from(&c.as_slice()[0..n])
}

/// The first page of an endpoint's listing.
pub open spec fn first_page_spec(base: Seq<char>, endpoint: Seq<char>) -> Seq<char> {
    base + "/api/"@ + endpoint + "/?limit=500"@
}

/// The first page of an endpoint's listing under a (trimmed) base URL.
pub fn first_page_url(base: &str, endpoint: &str) -> (r: String)
    ensures
        r@ == first_page_spec(base@, endpoint@),
{
    let mut t = chars_of(base);
    put(&mut t, "/api/");
    put(&mut t, endpoint);
    put(&mut t, "/?limit=500");
    string_from(t.as_slice())
}

/// What one page of a listing tells the reader to do next.
#[derive(Debug)]
pub enum PageOutcome {
    /// The server refused the request (any status but 200).
    Refused {
        /// Why, for the operator.
        detail: String,
    },
    /// The body is not JSON.
    Unparsable,
    /// The body has no `results` array.
    NoResults,
    /// Objects of this page, and the next page to read.
    More {
        objects: Vec<Json>,
        next: String,
    },
    /// Objects of this page; the listing is exhausted.
    Done {
        objects: Vec<Json>,
    },
}

/// The abstract content of a [`PageOutcome`].
pub enum PageModel {
    Refused(Seq<char>),
    Unparsable,
    NoResults,
    More(Seq<JVal>, Seq<char>),
    Done(Seq<JVal>),
}

pub open spec fn page_view(p: PageOutcome) -> PageModel {
    match p {
        PageOutcome::Refused { detail } => PageModel::Refused(detail@),
        PageOutcome::Unparsable => PageModel::Unparsable,
        PageOutcome::NoResults => PageModel::NoResults,
        PageOutcome::More { objects, next } => PageModel::More(jv_list(objects@), next@),
        PageOutcome::Done { objects } => PageModel::Done(jv_list(objects@)),
    }
}

/// The detail of a refused page.
pub open spec fn refused_detail(status: u16) -> Seq<char> {
    "HTTP "@ + crate::text::int_text(status as int) + " (is the reconciler token authorized for this endpoint?)"@
}

/// A page's outcome from its status and parsed body.
pub open spec fn page_of(status: u16, body: Option<JVal>) -> PageModel {
    if status != 200 {
        PageModel::Refused(refused_detail(status))
    } else {
        match body {
            None => PageModel::Unparsable,
            Some(b) => match jarray(jget(b, "results"@)) {
                None => PageModel::NoResults,
                Some(objs) => match jstr(jget(b, "next"@)) {
                    Some(next) => PageModel::More(objs, next),
                    None => PageModel::Done(objs),
                },
            },
        }
    }
}

/// Decides a page from its status and parsed body: refused unless 200; the
/// `results` objects; more to read while `next` names a page.
#[verifier::loop_isolation(false)]
pub fn page_outcome(status: u16, body: Option<Json>) -> (r: PageOutcome)
    ensures
        page_view(r) == page_of(
            status,
            match body {
                Some(b) => Some(jv(b)),
                None => None,
            },
        ),
{
    if status != 200 {
        let mut t = chars_of("HTTP ");
        put_chars(&mut t, crate::text::fmt_u128(status as u128).as_slice());
        put(&mut t, " (is the reconciler token authorized for this endpoint?)");
        return PageOutcome::Refused { detail: string_from(t.as_slice()) };
    }
    let b = match body {
        Some(b) => b,
        None => return PageOutcome::Unparsable,
    };
    let results = match as_array(get(&b, "results")) {
        Some(a) => a,
        None => return PageOutcome::NoResults,
    };
    let mut objects: Vec<Json> = Vec::new();
    let mut i: usize = 0;
    proof {
        lemma_jv_list(results@);
    }
    while i < results.len()
        invariant
            i <= results@.len(),
            jv_list(objects@) == jv_list(results@).take(i as int),
        decreases results@.len() - i,
    {
        let x = copy_json(&results[i]);
        let ghost prev = objects@;
        objects.push(x);
        assert(objects@.drop_last() =~= prev);
        assert(jv_list(results@).take(i + 1) =~= jv_list(results@).take(i as int).push(jv(results@[i as int])));
        i = i + 1;
    }
    assert(jv_list(results@).take(i as int) =~= jv_list(results@));
    match as_str(get(&b, "next")) {
        Some(next) => PageOutcome::More { objects, next: string_from(chars_of(next).as_slice()) },
        None => PageOutcome::Done { objects },
    }
}

/// A page's outcome from its status and body text (parsed with serde_json).
pub fn read_page(status: u16, text: &str) -> (r: PageOutcome)
    ensures
        page_view(r) == page_of(status, json_parse(text@)),
{
    if status != 200 {
        return page_outcome(status, None);
    }
    page_outcome(status, parse_json(text))
}

/// The escrow document with one endpoint's objects added, canonicalized,
/// under its escrow key.
pub fn add_endpoint(doc: Vec<(String, Json)>, endpoint: &str, objects: Vec<Json>) -> (r: Vec<(String, Json)>)
    ensures
        jv_entries(r@) == set_entry(
            jv_entries(doc@),
            escrow_key_spec(endpoint@),
            JVal::Array(canonical(jv_list(objects@))),
        ),
{
    let key = escrow_key(endpoint);
    set_entry_of(doc, key.as_str(), Json::Array(canonicalize_objects(objects)))
}

/// The endpoint a pull reads at each stage: [`ENDPOINTS`], in order.
pub open spec fn pull_endpoint(i: int) -> Seq<char> {
    if i == 0 {
        "dcim/sites"@
    } else if i == 1 {
        "dcim/manufacturers"@
    } else if i == 2 {
        "dcim/device-types"@
    } else if i == 3 {
        "dcim/device-roles"@
    } else if i == 4 {
        "dcim/devices"@
    } else if i == 5 {
        "dcim/interfaces"@
    } else if i == 6 {
        "dcim/inventory-items"@
    } else if i == 7 {
        "ipam/prefixes"@
    } else if i == 8 {
        "ipam/ip-addresses"@
    } else if i == 9 {
        "ipam/vlans"@
    } else if i == 10 {
        "virtualization/cluster-types"@
    } else if i == 11 {
        "virtualization/clusters"@
    } else if i == 12 {
        "virtualization/virtual-machines"@
    } else if i == 13 {
        "virtualization/interfaces"@
    } else if i == 14 {
        "extras/custom-fields"@
    } else {
        "extras/custom-field-choice-sets"@
    }
}

fn pull_name(i: usize) -> (r: &'static str)
    requires
        i < 16,
    ensures
        r@ == pull_endpoint(i as int),
{
    ENDPOINTS[i]
}

/// What a pull asks the binary to do next.
#[derive(Debug)]
pub enum PullAction {
    /// GET this URL and hand its status and body to `fetched`.
    Fetch(String),
    /// Every endpoint has been read; take the document.
    Done,
}

/// Why a page stops a pull.
#[derive(Debug, Clone, PartialEq, Eq)]
pub enum PullFault {
    /// The server refused the request (any status but 200).
    Refused {
        /// Why, for the operator.
        detail: String,
    },
    /// The body is not JSON.
    Unparsable,
    /// The body has no `results` array.
    NoResults,
}

/// A pull in progress: the base URL, the endpoint it reads, the next page
/// of it (none before its first), the objects read of it so far, and the
/// escrow document of the endpoints already read.
pub struct PullRun {
    base: String,
    stage: usize,
    next: Option<String>,
    objects: Vec<Json>,
    document: Vec<(String, Json)>,
}

/// The abstract state of a [`PullRun`].
pub struct PullModel {
    pub base: Seq<char>,
    pub stage: int,
    pub next: Option<Seq<char>>,
    pub objects: Seq<JVal>,
    pub document: Seq<(Seq<char>, JVal)>,
}

impl View for PullRun {
    type V = PullModel;

    closed spec fn view(&self) -> PullModel {
        PullModel {
            base: self.base@,
            stage: self.stage as int,
            next: match self.next {
                Some(u) => Some(u@),
                None => None,
            },
            objects: jv_list(self.objects@),
            document: jv_entries(self.document@),
        }
    }
}

/// The URL a pull reads next: the page a listing named, else the first
/// page of the current endpoint.
pub open spec fn pull_url(m: PullModel) -> Seq<char> {
    match m.next {
        Some(u) => u,
        None => first_page_spec(m.base, pull_endpoint(m.stage)),
    }
}

/// What a page does to a pull: more of the endpoint to read, or the
/// endpoint complete and added to the document; a refused, unparsable or
/// results-less page stops the pull.
pub open spec fn after_page(m: PullModel, page: PageModel) -> Result<PullModel, PageModel> {
    match page {
        PageModel::More(objs, next) => Ok(
            PullModel { base: m.base, stage: m.stage, next: Some(next), objects: m.objects + objs, document: m.document },
        ),
        PageModel::Done(objs) => Ok(
            PullModel {
                base: m.base,
                stage: m.stage + 1,
                next: None,
                objects: seq![],
                document: set_entry(
                    m.document,
                    escrow_key_spec(pull_endpoint(m.stage)),
                    JVal::Array(canonical(m.objects + objs)),
                ),
            },
        ),
        _ => Err(page),
    }
}

impl PullRun {
    /// Starts a pull of every owned endpoint from a NetBox base URL
    /// (trailing slashes dropped).
    pub fn new(base_url: &str) -> (r: PullRun)
        ensures
            r@ == (PullModel {
                base: without_trailing_slashes(base_url@),
                stage: 0,
                next: None,
                objects: seq![],
                document: seq![],
            }),
    {
        let r = PullRun { base: base_of(base_url), stage: 0, next: None, objects: Vec::new(), document: Vec::new() };
        assert(jv_list(r.objects@) =~= Seq::<JVal>::empty());
        assert(jv_entries(r.document@) =~= Seq::<(Seq<char>, JVal)>::empty());
        r
    }

    /// Whether every endpoint has been read.
    pub fn finished(&self) -> (r: bool)
        ensures
            r == (self@.stage >= 16),
    {
        self.stage >= 16
    }

    /// The next request: the next page of the current endpoint, or done
    /// after the last endpoint.
    pub fn step(&self) -> (r: PullAction)
        ensures
            self@.stage >= 16 ==> r is Done,
            self@.stage < 16 ==> (r matches PullAction::Fetch(u) && u@ == pull_url(self@)),
    {
        if self.stage >= 16 {
            return PullAction::Done;
        }
        match &self.next {
            Some(u) => PullAction::Fetch(string_from(chars_of(u.as_str()).as_slice())),
            None => PullAction::Fetch(first_page_url(self.base.as_str(), pull_name(self.stage))),
        }
    }

    /// Takes the answer to the last fetch: see [`after_page`] and
    /// [`page_of`].
    pub fn fetched(&mut self, status: u16, body: &str) -> (r: Result<(), PullFault>)
        requires
            old(self)@.stage < 16,
        ensures
            match after_page(old(self)@, page_of(status, json_parse(body@))) {
                Ok(m) => r is Ok && final(self)@ == m,
                Err(PageModel::Refused(d)) => r matches Err(PullFault::Refused { detail }) && detail@ == d
                    && final(self)@ == old(self)@,
                Err(PageModel::Unparsable) => r == Err::<(), PullFault>(PullFault::Unparsable) && final(self)@ == old(self)@,
                Err(_) => r == Err::<(), PullFault>(PullFault::NoResults) && final(self)@ == old(self)@,
            },
    {
        match read_page(status, body) {
            PageOutcome::Refused { detail } => Err(PullFault::Refused { detail }),
            PageOutcome::Unparsable => Err(PullFault::Unparsable),
            PageOutcome::NoResults => Err(PullFault::NoResults),
            PageOutcome::More { objects, next } => {
                let ghost prev = jv_list(self.objects@);
                let ghost ov = objects@;
                let ghost sv = self.objects@;
                let ghost page = jv_list(objects@);
                let mut objects = objects;
                self.objects.append(&mut objects);
                proof {
                    assert(self.objects@ =~= sv + ov);
                    lemma_jv_list(self.objects@);
                    lemma_jv_list(sv);
                    lemma_jv_list(ov);
                    assert(jv_list(self.objects@) =~= prev + page);
                }
                self.next = Some(next);
                Ok(())
            },
            PageOutcome::Done { objects } => {
                let ghost page = jv_list(objects@);
                let mut all = Vec::new();
                std::mem::swap(&mut all, &mut self.objects);
                let ghost prev = jv_list(all@);
                let ghost av = all@;
                let ghost ov = objects@;
                let mut objects = objects;
                all.append(&mut objects);
                proof {
                    assert(all@ =~= av + ov);
                    lemma_jv_list(all@);
                    lemma_jv_list(av);
                    lemma_jv_list(ov);
                    assert(jv_list(all@) =~= prev + page);
                }
                let mut doc = Vec::new();
                std::mem::swap(&mut doc, &mut self.document);
                self.document = add_endpoint(doc, pull_name(self.stage), all);
                self.stage = self.stage + 1;
                self.next = None;
                assert(jv_list(self.objects@) =~= Seq::<JVal>::empty());
                Ok(())
            },
        }
    }

    /// The escrow document read so far (all of it once finished).
    pub fn document(self) -> (r: Vec<(String, Json)>)
        ensures
            jv_entries(r@) == self@.document,
    {
        self.document
    }
}

} // verus!
