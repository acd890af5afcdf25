//! The JSON API's decisions: list parameters, create and patch bodies.
use vstd::prelude::*;

use crate::db::memos::{Feed, MemoQuery};
use crate::error::AppError;
use crate::models::{
    Memo, MemoState, Visibility, state_from_text, state_text, visibility_from_text,
    visibility_text,
};
use crate::routes::pages::{opt_str, parse_before, parse_before_spec};
use crate::text::{chars_of, str_eq, string_from_range, trim_bounds, trim_seq};

verus! {

/// JSON-flavored error wrapper: same statuses as AppError, `{"error": …}` body.
pub struct ApiError(pub AppError);

impl From<AppError> for ApiError {
    fn from(e: AppError) -> (r: Self) {
        ApiError(e)
    }
}

impl vstd::std_specs::convert::FromSpecImpl<AppError> for ApiError {
    open spec fn obeys_from_spec() -> bool {
        true
    }

    open spec fn from_spec(e: AppError) -> Self {
        ApiError(e)
    }
}

/// A memo as the API shows it.
pub struct ApiMemo {
    pub uid: String,
    pub content: String,
    pub visibility: Visibility,
    pub pinned: bool,
    pub state: MemoState,
    pub created_at: i64,
    pub updated_at: i64,
}

impl From<Memo> for ApiMemo {
    fn from(m: Memo) -> (r: Self) {
        ApiMemo {
            uid: m.uid,
            content: m.content,
            visibility: m.visibility,
            pinned: m.pinned,
            state: m.state,
            created_at: m.created_at,
            updated_at: m.updated_at,
        }
    }
}

/// The API form of a memo: its uid, content, visibility, pin, state and times.
pub open spec fn api_memo_spec(m: Memo) -> ApiMemo {
    ApiMemo {
        uid: m.uid,
        content: m.content,
        visibility: m.visibility,
        pinned: m.pinned,
        state: m.state,
        created_at: m.created_at,
        updated_at: m.updated_at,
    }
}

impl vstd::std_specs::convert::FromSpecImpl<Memo> for ApiMemo {
    open spec fn obeys_from_spec() -> bool {
        true
    }

    open spec fn from_spec(m: Memo) -> Self {
        api_memo_spec(m)
    }
}

/// The query parameters of `GET /api/v1/memos`.
pub struct ListParams {
    pub q: Option<String>,
    pub tag: Option<String>,
    pub state: Option<String>,
    pub limit: Option<i64>,
    pub before: Option<String>,
}

pub open spec fn nonblank(p: Option<Seq<char>>) -> Option<Seq<char>> {
    match p {
        Some(t) => if t.len() > 0 {
            Some(t)
        } else {
            None
        },
        None => None,
    }
}

/// The page size asked for, 20 by default, kept within 1..=100.
pub open spec fn api_limit(limit: Option<i64>) -> i64 {
    let l = match limit {
        Some(l) => l,
        None => 20,
    };
    if l < 1 {
        1
    } else if l > 100 {
        100
    } else {
        l
    }
}

/// An API page holds between 1 and 100 memos, and any size in that range is
/// taken as asked.
pub proof fn lemma_api_limit_bounds(limit: Option<i64>)
    ensures
        1 <= api_limit(limit) <= 100,
        forall|l: i64| limit == Some(l) && 1 <= l <= 100 ==> api_limit(limit) == l,
        limit is None ==> api_limit(limit) == 20,
{
}

fn nonempty(p: &Option<String>) -> (r: Option<String>)
    ensures
        opt_str(r) == nonblank(opt_str(*p)),
{
    match p {
        Some(s) => {
            if str_eq(s.as_str(), "") {
                proof {
                    reveal_strlit("");
                }
                None
            } else {
                proof {
                    reveal_strlit("");
                    if s@.len() == 0 {
                        assert(s@ =~= ""@);
                    }
                }
                Some(s.clone())
            }
        },
        None => None,
    }
}

/// The feed query of an API list request: the archive when `state=archived`,
/// else the user's own timeline; blank `q` and `tag` ignored; the keyset cursor
/// when it parses; the page size kept within 1..=100.
pub fn list_query(user_id: i64, p: &ListParams) -> (q: MemoQuery)
    ensures
        q.feed == (if opt_str(p.state) == Some("archived"@) {
            Feed::Archive(user_id)
        } else {
            Feed::Own(user_id)
        }),
        opt_str(q.tag) == nonblank(opt_str(p.tag)),
        opt_str(q.search) == nonblank(opt_str(p.q)),
        q.created_range is None,
        q.before == match p.before {
            Some(b) => parse_before_spec(b@),
            None => None,
        },
        q.limit == api_limit(p.limit),
{
    let archived = match &p.state {
        Some(s) => str_eq(s.as_str(), "archived"),
        None => false,
    };
    let feed = if archived {
        Feed::Archive(user_id)
    } else {
        Feed::Own(user_id)
    };
    let before = match &p.before {
        Some(b) => parse_before(b.as_str()),
        None => None,
    };
    let l = match p.limit {
        Some(l) => l,
        None => 20,
    };
    let limit = if l < 1 {
        1
    } else if l > 100 {
        100
    } else {
        l
    };
    MemoQuery {
        feed,
        tag: nonempty(&p.tag),
        search: nonempty(&p.q),
        created_range: None,
        before,
        limit,
    }
}

/// The body of `POST /api/v1/memos`.
pub struct CreateBody {
    pub content: String,
    pub visibility: Option<String>,
}

/// A visibility parameter: parsed, `default` when missing or unknown.
pub open spec fn visibility_or(p: Option<Seq<char>>, default: Visibility) -> Visibility {
    match p {
        Some(t) => match visibility_from_text(t) {
            Some(v) => v,
            None => default,
        },
        None => default,
    }
}

fn visibility_param(p: &Option<String>, default: Visibility) -> (v: Visibility)
    ensures
        v == visibility_or(opt_str(*p), default),
{
    match p {
        Some(t) => match Visibility::parse(t.as_str()) {
            Some(v) => v,
            None => default,
        },
        None => default,
    }
}

fn trimmed(s: &String) -> (t: String)
    ensures
        t@ == trim_seq(s@),
{
    let v = chars_of(s.as_str());
    assert(v@.subrange(0, v@.len() as int) =~= v@);
    let (a, b) = trim_bounds(&v, 0, v.len());
    string_from_range(&v, a, b)
}

/// A new memo from the API: the content trimmed and required; the visibility
/// private unless a known one is given.
pub fn create_memo_input(body: &CreateBody) -> (r: Result<(String, Visibility), AppError>)
    ensures
        trim_seq(body.content@).len() == 0 ==> (r matches Err(AppError::BadRequest(m)) && m@
            == "content is required"@),
        trim_seq(body.content@).len() > 0 ==> (r matches Ok((c, v)) && c@ == trim_seq(
            body.content@,
        ) && v == visibility_or(opt_str(body.visibility), Visibility::Private)),
{
    let content = trimmed(&body.content);
    if content.as_str().is_empty() {
        return Err(AppError::BadRequest(String::from_str("content is required")));
    }
    Ok((content, visibility_param(&body.visibility, Visibility::Private)))
}

/// A memo looked up by uid for its owner's API call; another user's memo is
/// answered as not found.
pub fn own_memo(memo: Memo, user_id: i64) -> (r: Result<Memo, AppError>)
    ensures
        memo.user_id == user_id ==> r == Ok::<Memo, AppError>(memo),
        memo.user_id != user_id ==> r matches Err(AppError::NotFound),
{
    if memo.user_id != user_id {
        return Err(AppError::NotFound);
    }
    Ok(memo)
}

/// The body of `PATCH /api/v1/memos/{uid}`.
pub struct PatchBody {
    pub content: Option<String>,
    pub visibility: Option<String>,
    pub pinned: Option<bool>,
    pub state: Option<String>,
}

/// What a patch does, in order: rewrite content and visibility, then flip the
/// pin, then flip the archive state.
pub struct PatchPlan {
    pub update: Option<(String, Visibility)>,
    pub toggle_pin: bool,
    pub toggle_archived: bool,
}

/// A memo's patchable fields: content, visibility, pin and state.
pub open spec fn patch_fields(m: Memo) -> (Seq<char>, Visibility, bool, MemoState) {
    (m.content@, m.visibility, m.pinned, m.state)
}

/// A plan as `(update, toggle_pin, toggle_archived)`.
pub open spec fn plan_view(p: PatchPlan) -> (Option<(Seq<char>, Visibility)>, bool, bool) {
    (
        match p.update {
            Some((c, v)) => Some((c@, v)),
            None => None,
        },
        p.toggle_pin,
        p.toggle_archived,
    )
}

/// The plan a patch body makes for a memo's fields, `None` when it is refused
/// for a blank content.
pub open spec fn patch_plan_spec(
    f: (Seq<char>, Visibility, bool, MemoState),
    body: PatchBody,
) -> Option<(Option<(Seq<char>, Visibility)>, bool, bool)> {
    if body.content matches Some(c) && trim_seq(c@).len() == 0 {
        None
    } else {
        Some(
            (
                if body.content is None && body.visibility is None {
                    None
                } else {
                    Some(
                        (
                            match body.content {
                                Some(bc) => trim_seq(bc@),
                                None => f.0,
                            },
                            visibility_or(opt_str(body.visibility), f.1),
                        ),
                    )
                },
                body.pinned matches Some(p) && p != f.2,
                opt_str(body.state) matches Some(t) && state_from_text(t) matches Some(st) && st
                    != f.3,
            ),
        )
    }
}

/// The other state.
pub open spec fn flipped(s: MemoState) -> MemoState {
    match s {
        MemoState::Normal => MemoState::Archived,
        MemoState::Archived => MemoState::Normal,
    }
}

/// The fields after a plan's statements run: content and visibility
/// rewritten, the pin flipped, then the archive state flipped, which also
/// unpins.
pub open spec fn plan_effect(
    f: (Seq<char>, Visibility, bool, MemoState),
    p: (Option<(Seq<char>, Visibility)>, bool, bool),
) -> (Seq<char>, Visibility, bool, MemoState) {
    let (c, v) = match p.0 {
        Some(u) => u,
        None => (f.0, f.1),
    };
    let pinned = if p.1 {
        !f.2
    } else {
        f.2
    };
    if p.2 {
        (c, v, false, flipped(f.3))
    } else {
        (c, v, pinned, f.3)
    }
}

/// Sending the same PATCH again leaves the memo as the first one left it,
/// unless the body both pins the memo and moves it to another state (the move
/// unpins it, so the second call pins it again).
pub proof fn lemma_patch_idempotent(f: (Seq<char>, Visibility, bool, MemoState), body: PatchBody)
    requires
        patch_plan_spec(f, body) is Some,
        !(body.pinned == Some(true) && (patch_plan_spec(f, body)->0).2),
    ensures
        patch_plan_spec(plan_effect(f, patch_plan_spec(f, body)->0), body) is Some,
        plan_effect(
            plan_effect(f, patch_plan_spec(f, body)->0),
            patch_plan_spec(plan_effect(f, patch_plan_spec(f, body)->0), body)->0,
        ) == plan_effect(f, patch_plan_spec(f, body)->0),
{
    let p1 = patch_plan_spec(f, body)->0;
    let f2 = plan_effect(f, p1);
    let p2 = patch_plan_spec(f2, body)->0;
    if body.visibility is Some {
        assert(visibility_or(opt_str(body.visibility), f2.1) == f2.1);
    }
    assert(!p2.1);
    assert(!p2.2);
}

/// A patch: content or visibility given means an update (missing ones keep the
/// memo's; given content is trimmed and may not be blank); a `pinned` that
/// differs flips the pin; a known `state` that differs flips the archive state.
pub fn patch_plan(memo: &Memo, body: &PatchBody) -> (r: Result<PatchPlan, AppError>)
    ensures
        r is Ok <==> patch_plan_spec(patch_fields(*memo), *body) is Some,
        r matches Ok(plan) ==> Some(plan_view(plan)) == patch_plan_spec(patch_fields(*memo), *body),
        (body.content matches Some(c) && trim_seq(c@).len() == 0) ==> (r matches Err(
            AppError::BadRequest(m),
        ) && m@ == "content can't be empty"@),
        !(body.content matches Some(c) && trim_seq(c@).len() == 0) ==> (r matches Ok(plan) && {
            &&& (body.content is None && body.visibility is None) ==> plan.update is None
            &&& (body.content is Some || body.visibility is Some) ==> (plan.update matches Some((
                c,
                v,
            )) && c@ == (match body.content {
                Some(bc) => trim_seq(bc@),
                None => memo.content@,
            }) && v == visibility_or(opt_str(body.visibility), memo.visibility))
            &&& plan.toggle_pin == (body.pinned matches Some(p) && p != memo.pinned)
            &&& plan.toggle_archived == (opt_str(body.state) matches Some(t) && state_from_text(t)
                matches Some(st) && st != memo.state)
        }),
{
    let update = if body.content.is_some() || body.visibility.is_some() {
        let content = match &body.content {
            Some(c) => {
                let t = trimmed(c);
                if t.as_str().is_empty() {
                    return Err(AppError::BadRequest(String::from_str("content can't be empty")));
                }
                t
            },
            None => memo.content.clone(),
        };
        Some((content, visibility_param(&body.visibility, memo.visibility)))
    } else {
        None
    };
    let toggle_pin = match body.pinned {
        Some(p) => p != memo.pinned,
        None => false,
    };
    let toggle_archived = match &body.state {
        Some(t) => match MemoState::parse(t.as_str()) {
            Some(st) => st != memo.state,
            None => false,
        },
        None => false,
    };
    Ok(PatchPlan { update, toggle_pin, toggle_archived })
}

/// The API has no pinned block: pinned rows come first, then the page.
pub fn api_memos(pinned: Vec<Memo>, memos: Vec<Memo>) -> (out: Vec<ApiMemo>)
    ensures
        out@.len() == pinned@.len() + memos@.len(),
        forall|i: int| 0 <= i < pinned@.len() ==> #[trigger] out@[i] == api_memo_spec(pinned@[i]),
        forall|i: int| 0 <= i < memos@.len() ==> #[trigger] out@[pinned@.len() + i] == api_memo_spec(memos@[i]),
{
    let mut out: Vec<ApiMemo> = Vec::new();
    let mut pinned = pinned;
    let mut memos = memos;
    let ghost p0 = pinned@;
    let ghost m0 = memos@;
    let mut rest: Vec<Memo> = Vec::new();
    while pinned.len() > 0
        invariant
            pinned@.len() + rest@.len() == p0.len(),
            pinned@ == p0.take(pinned@.len() as int),
            rest@ == p0.skip(pinned@.len() as int).reverse(),
        decreases pinned.len(),
    {
        let m = pinned.pop().unwrap();
        rest.push(m);
        assert(rest@ =~= p0.skip(pinned@.len() as int).reverse());
    }
    while rest.len() > 0
        invariant
            rest@.len() + out@.len() == p0.len(),
            rest@ == p0.skip(out@.len() as int).reverse(),
            forall|i: int| 0 <= i < out@.len() ==> #[trigger] out@[i] == api_memo_spec(p0[i]),
        decreases rest.len(),
    {
        let m = rest.pop().unwrap();
        assert(m == p0[out@.len() as int]);
        out.push(ApiMemo::from(m));
        assert(rest@ =~= p0.skip(out@.len() as int).reverse());
    }
    let mut back: Vec<Memo> = Vec::new();
    while memos.len() > 0
        invariant
            memos@.len() + back@.len() == m0.len(),
            memos@ == m0.take(memos@.len() as int),
            back@ == m0.skip(memos@.len() as int).reverse(),
        decreases memos.len(),
    {
        let m = memos.pop().unwrap();
        back.push(m);
        assert(back@ =~= m0.skip(memos@.len() as int).reverse());
    }
    let ghost base = out@.len();
    while back.len() > 0
        invariant
            base == p0.len(),
            base <= out@.len(),
            back@.len() + out@.len() == p0.len() + m0.len(),
            back@ == m0.skip(out@.len() - base).reverse(),
            forall|i: int| 0 <= i < base ==> #[trigger] out@[i] == api_memo_spec(p0[i]),
            forall|i: int| 0 <= i < out@.len() - base ==> #[trigger] out@[base + i] == api_memo_spec(m0[i]),
        decreases back.len(),
    {
        let ghost j = out@.len() - base;
        let ghost before = back@;
        assert(before == m0.skip(j).reverse());
        assert(before.last() == m0.skip(j)[0]);
        let m = back.pop().unwrap();
        assert(m == m0[j]);
        out.push(ApiMemo::from(m));
        assert(back@ =~= before.drop_last());
        assert(m0.skip(j).reverse().drop_last() =~= m0.skip(j + 1).reverse());
    }
    out
}

} // verus!
