use vstd::prelude::*;
use vstd::string::*;

verus! {

/// A render request: the three free-form text fields that are printed onto
/// the document.
pub struct GenerateRequest {
    pub name: String,
    pub address: String,
    pub issuer: String,
}

/// A transport-level acknowledgement body.
pub struct GenerateResponse {
    pub success: bool,
    pub message: String,
}

/// The failure taxonomy: request validation, per-render generation failures,
/// and startup (asset loading) failures.
#[derive(Debug)]
pub enum GenerateError {
    ValidationError(String),
    GenerationError(String),
    InitializationError(String),
    InvalidInput,
}

/// The Unicode `White_Space` characters, as `char::is_whitespace` counts
/// them.
pub open spec fn is_space(c: char) -> bool {
    ||| c == ' '
    ||| c == '\t'
    ||| c == '\n'
    ||| c == '\u{0b}'
    ||| c == '\u{0c}'
    ||| c == '\r'
    ||| c == '\u{85}'
    ||| c == '\u{a0}'
    ||| c == '\u{1680}'
    ||| ('\u{2000}' <= c && c <= '\u{200a}')
    ||| c == '\u{2028}'
    ||| c == '\u{2029}'
    ||| c == '\u{202f}'
    ||| c == '\u{205f}'
    ||| c == '\u{3000}'
}

/// `s` with its leading whitespace removed.
pub open spec fn trim_start_spec(s: Seq<char>) -> Seq<char>
    decreases s.len(),
{
    if s.len() == 0 {
        s
    } else if is_space(s[0]) {
        trim_start_spec(s.subrange(1, s.len() as int))
    } else {
        s
    }
}

/// `s` with its trailing whitespace removed.
pub open spec fn trim_end_spec(s: Seq<char>) -> Seq<char>
    decreases s.len(),
{
    if s.len() == 0 {
        s
    } else if is_space(s[s.len() - 1]) {
        trim_end_spec(s.subrange(0, s.len() - 1))
    } else {
        s
    }
}

/// `s` with leading and trailing whitespace removed, as `str::trim` leaves
/// it.
pub open spec fn trim_spec(s: Seq<char>) -> Seq<char> {
    trim_end_spec(trim_start_spec(s))
}

proof fn lemma_trim_start(s: Seq<char>, i: int)
    requires
        0 <= i <= s.len(),
        forall|j: int| 0 <= j < i ==> is_space(#[trigger] s[j]),
        i == s.len() || !is_space(s[i]),
    ensures
        trim_start_spec(s) == s.subrange(i, s.len() as int),
    decreases i,
{
    if i == 0 {
        assert(s.subrange(0, s.len() as int) =~= s);
    } else {
        assert(is_space(s[0]));
        let s2 = s.subrange(1, s.len() as int);
        assert(forall|j: int| 0 <= j < i - 1 ==> is_space(#[trigger] s2[j]));
        lemma_trim_start(s2, i - 1);
        assert(s2.subrange(i - 1, s2.len() as int) =~= s.subrange(i, s.len() as int));
    }
}

proof fn lemma_trim_end(s: Seq<char>, i: int)
    requires
        0 <= i <= s.len(),
        forall|j: int| i <= j < s.len() ==> is_space(#[trigger] s[j]),
        i == 0 || !is_space(s[i - 1]),
    ensures
        trim_end_spec(s) == s.subrange(0, i),
    decreases s.len(),
{
    if i == s.len() {
        assert(s.subrange(0, s.len() as int) =~= s);
    } else {
        assert(is_space(s[s.len() - 1]));
        let s2 = s.subrange(0, s.len() - 1);
        assert(forall|j: int| i <= j < s2.len() ==> is_space(#[trigger] s2[j]));
        lemma_trim_end(s2, i);
        assert(s2.subrange(0, i) =~= s.subrange(0, i));
    }
}

/// Whether `c` is a Unicode whitespace character.
pub fn is_space_char(c: char) -> (b: bool)
    ensures
        b == is_space(c),
{
    c == ' ' || c == '\t' || c == '\n' || c == '\u{0b}' || c == '\u{0c}' || c == '\r' || c
        == '\u{85}' || c == '\u{a0}' || c == '\u{1680}' || ('\u{2000}' <= c && c <= '\u{200a}')
        || c == '\u{2028}' || c == '\u{2029}' || c == '\u{202f}' || c == '\u{205f}' || c
        == '\u{3000}'
}

/// A copy of `s` with leading and trailing whitespace removed.
pub fn trim_string(s: &String) -> (r: String)
    ensures
        r@ == trim_spec(s@),
{
    let st = s.as_str();
    let n = st.unicode_len();
    let mut start: usize = 0;
    while start < n && is_space_char(st.get_char(start))
        invariant
            0 <= start <= n,
            n == s@.len(),
            st@ == s@,
            forall|j: int| 0 <= j < start ==> is_space(#[trigger] s@[j]),
        decreases n - start,
    {
        start = start + 1;
    }
    let mut end: usize = n;
    while end > start && is_space_char(st.get_char(end - 1))
        invariant
            start <= end <= n,
            n == s@.len(),
            st@ == s@,
            forall|j: int| end <= j < n ==> is_space(#[trigger] s@[j]),
        decreases end,
    {
        end = end - 1;
    }
    let piece = st.substring_char(start, end);
    proof {
        lemma_trim_start(s@, start as int);
        let t1 = s@.subrange(start as int, s@.len() as int);
        assert(forall|j: int| end - start <= j < t1.len() ==> is_space(#[trigger] t1[j]));
        lemma_trim_end(t1, end - start);
        assert(t1.subrange(0, end - start) =~= s@.subrange(start as int, end as int));
    }
    piece.to_owned()
}

/// Whether every character of `s` is whitespace, i.e. the trimmed string is
/// empty.
pub fn is_blank(s: &String) -> (b: bool)
    ensures
        b == (trim_spec(s@).len() == 0),
{
    let st = s.as_str();
    let n = st.unicode_len();
    let mut i: usize = 0;
    while i < n
        invariant
            0 <= i <= n,
            n == s@.len(),
            st@ == s@,
            forall|j: int| 0 <= j < i ==> is_space(#[trigger] s@[j]),
        decreases n - i,
    {
        if !is_space_char(st.get_char(i)) {
            proof {
                lemma_trim_start(s@, i as int);
                let t1 = s@.subrange(i as int, s@.len() as int);
                assert(t1[0] == s@[i as int]);
                lemma_trim_end_len(t1);
            }
            return false;
        }
        i = i + 1;
    }
    proof {
        lemma_trim_start(s@, s@.len() as int);
        assert(s@.subrange(s@.len() as int, s@.len() as int) =~= Seq::<char>::empty());
    }
    true
}

/// A trimmed sequence that starts and ends with non-whitespace keeps its
/// length under `trim_end_spec`.
proof fn lemma_trim_end_len(s: Seq<char>)
    requires
        s.len() > 0,
        exists|k: int| 0 <= k < s.len() && !is_space(s[k]),
    ensures
        trim_end_spec(s).len() > 0,
    decreases s.len(),
{
    let k = choose|k: int| 0 <= k < s.len() && !is_space(s[k]);
    if is_space(s[s.len() - 1]) {
        let s2 = s.subrange(0, s.len() - 1);
        assert(k < s.len() - 1);
        assert(s2[k] == s[k]);
        lemma_trim_end_len(s2);
    }
}

/// The conditions under which a request is accepted: each field has some
/// non-whitespace content and is at most its length bound (name and issuer
/// 100 characters, address 200).
pub open spec fn spec_request_valid(req: GenerateRequest) -> bool {
    &&& trim_spec(req.name@).len() > 0
    &&& trim_spec(req.address@).len() > 0
    &&& trim_spec(req.issuer@).len() > 0
    &&& req.name@.len() <= 100
    &&& req.address@.len() <= 200
    &&& req.issuer@.len() <= 100
}

/// The message of the validation error reported for an invalid request: the
/// first failing check in order decides.
pub open spec fn spec_validate_message(req: GenerateRequest) -> Seq<char> {
    if trim_spec(req.name@).len() == 0 {
        "Name cannot be empty"@
    } else if trim_spec(req.address@).len() == 0 {
        "Address cannot be empty"@
    } else if trim_spec(req.issuer@).len() == 0 {
        "Issuer cannot be empty"@
    } else if req.name@.len() > 100 {
        "Name is too long"@
    } else if req.address@.len() > 200 {
        "Address is too long"@
    } else {
        "Issuer is too long"@
    }
}

impl GenerateRequest {
    /// Accept exactly the requests whose fields are non-blank and within the
    /// length bounds; an invalid request is reported as a `ValidationError`
    /// whose message names the first failing check.
    pub fn validate(&self) -> (r: Result<(), GenerateError>)
        ensures
            r is Ok <==> spec_request_valid(*self),
            r matches Err(e) ==> e matches GenerateError::ValidationError(m) && m@
                == spec_validate_message(*self),
    {
        if is_blank(&self.name) {
            return Err(GenerateError::ValidationError(String::from_str("Name cannot be empty")));
        }
        if is_blank(&self.address) {
            return Err(
                GenerateError::ValidationError(String::from_str("Address cannot be empty")),
            );
        }
        if is_blank(&self.issuer) {
            return Err(GenerateError::ValidationError(String::from_str("Issuer cannot be empty")));
        }
        if self.name.as_str().unicode_len() > 100 {
            return Err(GenerateError::ValidationError(String::from_str("Name is too long")));
        }
        if self.address.as_str().unicode_len() > 200 {
            return Err(GenerateError::ValidationError(String::from_str("Address is too long")));
        }
        if self.issuer.as_str().unicode_len() > 100 {
            return Err(GenerateError::ValidationError(String::from_str("Issuer is too long")));
        }
        Ok(())
    }

    /// Replace each field by its whitespace-trimmed copy.
    pub fn sanitize(&mut self)
        ensures
            final(self).name@ == trim_spec(old(self).name@),
            final(self).address@ == trim_spec(old(self).address@),
            final(self).issuer@ == trim_spec(old(self).issuer@),
    {
        self.name = trim_string(&self.name);
        self.address = trim_string(&self.address);
        self.issuer = trim_string(&self.issuer);
    }
}

} // verus!
