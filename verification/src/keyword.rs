use vstd::prelude::*;
use vstd::string::StrSliceExecFns;
use std::collections::BTreeSet;

verus! {

/// Why a request at the boundary was turned down.
#[derive(Debug, Clone, Copy, PartialEq, Eq, Structural)]
pub enum BoundaryError {
    /// An attribute name is not of the form `namespace/name`.
    MalformedAttribute,
    /// An attribute name is well formed, but the schema knows no attribute
    /// of that name.
    UnresolvedAttribute,
}

/// The name of an attribute: a namespace and a name within it.
#[derive(Debug, PartialEq, Eq)]
pub struct NamespacedKeyword {
    pub namespace: String,
    pub name: String,
}

impl Clone for NamespacedKeyword {
    fn clone(&self) -> (copy: Self)
        ensures
            copy.namespace@ == self.namespace@,
            copy.name@ == self.name@,
    {
        NamespacedKeyword { namespace: self.namespace.clone(), name: self.name.clone() }
    }
}

/// One of the two parts of an attribute name: not empty, and free of `/`.
pub open spec fn is_segment(text: Seq<char>) -> bool {
    text.len() > 0 && !text.contains('/')
}

/// The text of the attribute name with the given parts.
pub open spec fn keyword_text(namespace: Seq<char>, name: Seq<char>) -> Seq<char> {
    namespace + seq!['/'] + name
}

/// `text` is the name of an attribute: two segments with one `/` between them.
pub open spec fn is_keyword_text(text: Seq<char>) -> bool {
    exists|namespace: Seq<char>, name: Seq<char>|
        is_segment(namespace) && is_segment(name) && text == #[trigger] keyword_text(
            namespace,
            name,
        )
}

impl NamespacedKeyword {
    /// Reads an attribute name of the form `namespace/name`.
    pub fn parse(attr: &str) -> (parsed: Result<NamespacedKeyword, BoundaryError>)
        ensures
            parsed is Ok <==> is_keyword_text(attr@),
            parsed matches Ok(keyword) ==> is_segment(keyword.namespace@) && is_segment(
                keyword.name@,
            ) && attr@ == keyword_text(keyword.namespace@, keyword.name@),
            parsed matches Err(e) ==> e == BoundaryError::MalformedAttribute,
    {
        let n = attr.unicode_len();
        let mut slash: Option<usize> = None;
        let mut i: usize = 0;
        while i < n
            invariant
                0 <= i <= n,
                n == attr@.len(),
                match slash {
                    Some(s) => s < i && attr@[s as int] == '/' && forall|j: int|
                        0 <= j < i && j != s ==> attr@[j] != '/',
                    None => forall|j: int| 0 <= j < i ==> attr@[j] != '/',
                },
            decreases n - i,
        {
            if attr.get_char(i) == '/' {
                if slash.is_some() {
                    proof {
                        lemma_one_slash(attr@, slash.unwrap() as int, i as int);
                    }
                    return Err(BoundaryError::MalformedAttribute);
                }
                slash = Some(i);
            }
            i += 1;
        }
        match slash {
            Some(s) => {
                if s == 0 || s + 1 == n {
                    proof {
                        lemma_slash_inside(attr@, s as int);
                    }
                    Err(BoundaryError::MalformedAttribute)
                } else {
                    let namespace = attr.substring_char(0, s).to_owned();
                    let name = attr.substring_char(s + 1, n).to_owned();
                    proof {
                        assert(attr@ =~= keyword_text(namespace@, name@));
                        assert(!namespace@.contains('/'));
                        assert(!name@.contains('/'));
                    }
                    Ok(NamespacedKeyword { namespace, name })
                }
            },
            None => {
                proof {
                    lemma_needs_slash(attr@);
                }
                Err(BoundaryError::MalformedAttribute)
            },
        }
    }
}

/// What a lookup in the schema amounts to: the identifier that it found, or
/// the refusal of a name that the schema does not know.
pub open spec fn entid_of(found: Option<i64>) -> Result<i64, BoundaryError> {
    match found {
        Some(entid) => Ok(entid),
        None => Err(BoundaryError::UnresolvedAttribute),
    }
}

/// A name that the schema does not know is refused, never passed over.
pub fn resolved_entid(found: Option<i64>) -> (entid: Result<i64, BoundaryError>)
    ensures
        entid == entid_of(found),
{
    match found {
        Some(entid) => Ok(entid),
        None => Err(BoundaryError::UnresolvedAttribute),
    }
}

/// The schema, asked for the attribute named `text`, may answer `found`.
pub open spec fn resolves_to<R: Fn(&NamespacedKeyword) -> Option<i64>>(
    schema: R,
    text: Seq<char>,
    found: Option<i64>,
) -> bool {
    exists|keyword: NamespacedKeyword| #[trigger]
        call_ensures(schema, (&keyword,), found) && is_segment(keyword.namespace@) && is_segment(
            keyword.name@,
        ) && text == keyword_text(keyword.namespace@, keyword.name@)
}

/// The schema may be asked for every attribute name.
pub open spec fn answers_all<R: Fn(&NamespacedKeyword) -> Option<i64>>(schema: R) -> bool {
    forall|keyword: &NamespacedKeyword| #[trigger] call_requires(schema, (keyword,))
}

/// Resolves an attribute name of the form `namespace/name` to its
/// identifier. A name of another form is refused without asking the schema;
/// a name that the schema does not know is refused.
pub fn store_entid_for_attribute<R: Fn(&NamespacedKeyword) -> Option<i64>>(
    schema: &R,
    attr: &str,
) -> (entid: Result<i64, BoundaryError>)
    requires
        answers_all(*schema),
    ensures
        !is_keyword_text(attr@) ==> entid == Err::<i64, BoundaryError>(
            BoundaryError::MalformedAttribute,
        ),
        is_keyword_text(attr@) ==> exists|found: Option<i64>| #[trigger]
            resolves_to(*schema, attr@, found) && entid == entid_of(found),
{
    match NamespacedKeyword::parse(attr) {
        Err(e) => Err(e),
        Ok(keyword) => {
            let found = schema(&keyword);
            assert(resolves_to(*schema, attr@, found));
            resolved_entid(found)
        },
    }
}

/// Every one of the first `n` names is well formed, and the schema answered
/// it with an identifier.
pub open spec fn resolved_up_to<R: Fn(&NamespacedKeyword) -> Option<i64>>(
    schema: R,
    names: Seq<String>,
    n: int,
) -> bool {
    forall|j: int|
        0 <= j < n ==> is_keyword_text(#[trigger] names[j]@) && exists|entid: i64|
            resolves_to(schema, names[j]@, Some(entid))
}

/// The filter that holds the identifiers of all the named attributes. One
/// name of another form than `namespace/name`, or one that the schema does
/// not know, and there is no filter: the first such name decides which
/// refusal is given, and the schema is asked for none of the names after it.
pub fn attribute_filter_for_names<R: Fn(&NamespacedKeyword) -> Option<i64>>(
    schema: &R,
    names: &Vec<String>,
) -> (filter: Result<BTreeSet<i64>, BoundaryError>)
    requires
        answers_all(*schema),
    ensures
        match filter {
            Ok(ids) => exists|found: Seq<i64>|
                found.len() == names.len() && #[trigger] found.to_set() == ids@ && forall|i: int|
                    0 <= i < names.len() ==> resolves_to(*schema, names[i]@, Some(#[trigger] found[i])),
            Err(BoundaryError::MalformedAttribute) => exists|i: int|
                0 <= i < names.len() && !is_keyword_text(#[trigger] names[i]@) && resolved_up_to(
                    *schema,
                    names@,
                    i,
                ),
            Err(BoundaryError::UnresolvedAttribute) => exists|i: int|
                0 <= i < names.len() && resolves_to(*schema, #[trigger] names[i]@, None)
                    && resolved_up_to(*schema, names@, i),
        },
{
    let mut ids: BTreeSet<i64> = BTreeSet::new();
    let ghost mut found: Seq<i64> = Seq::empty();
    let mut i: usize = 0;
    while i < names.len()
        invariant
            0 <= i <= names.len(),
            answers_all(*schema),
            found.len() == i,
            found.to_set() == ids@,
            resolved_up_to(*schema, names@, i as int),
            forall|j: int| 0 <= j < i ==> resolves_to(*schema, names[j]@, Some(#[trigger] found[j])),
        decreases names.len() - i,
    {
        match NamespacedKeyword::parse(names[i].as_str()) {
            Err(e) => {
                return Err(e);
            },
            Ok(keyword) => {
                match schema(&keyword) {
                    None => {
                        assert(resolves_to(*schema, names[i as int]@, None));
                        return Err(BoundaryError::UnresolvedAttribute);
                    },
                    Some(entid) => {
                        assert(resolves_to(*schema, names[i as int]@, Some(entid)));
                        proof {
                            found.lemma_push_to_set_commute(entid);
                            found = found.push(entid);
                            assert forall|j: int| 0 <= j < i + 1 implies is_keyword_text(
                                #[trigger] names@[j]@,
                            ) && exists|entid: i64| resolves_to(*schema, names@[j]@, Some(entid)) by {
                                if j == i {
                                    assert(resolves_to(*schema, names@[j]@, Some(entid)));
                                }
                            }
                            assert(resolved_up_to(*schema, names@, i + 1));
                        }
                        ids.insert(entid);
                    },
                }
            },
        }
        i += 1;
    }
    Ok(ids)
}

/// A text with `/` at two places is no attribute name.
proof fn lemma_one_slash(text: Seq<char>, first: int, second: int)
    requires
        0 <= first < second < text.len(),
        text[first] == '/',
        text[second] == '/',
    ensures
        !is_keyword_text(text),
{
    assert forall|namespace: Seq<char>, name: Seq<char>|
        is_segment(namespace) && is_segment(name) implies text != #[trigger] keyword_text(
        namespace,
        name,
    ) by {
        if text == keyword_text(namespace, name) {
            let at = namespace.len() as int;
            if first < at {
                assert(namespace[first] == '/');
            } else {
                assert(name[second - at - 1] == '/');
            }
        }
    }
}

/// A text whose only `/` stands first or last is no attribute name.
proof fn lemma_slash_inside(text: Seq<char>, slash: int)
    requires
        0 <= slash < text.len(),
        text[slash] == '/',
        forall|j: int| 0 <= j < text.len() && j != slash ==> text[j] != '/',
        slash == 0 || slash + 1 == text.len(),
    ensures
        !is_keyword_text(text),
{
    assert forall|namespace: Seq<char>, name: Seq<char>|
        is_segment(namespace) && is_segment(name) implies text != #[trigger] keyword_text(
        namespace,
        name,
    ) by {
        if text == keyword_text(namespace, name) {
            let at = namespace.len() as int;
            assert(text[at] == '/');
        }
    }
}

/// A text without `/` is no attribute name.
proof fn lemma_needs_slash(text: Seq<char>)
    requires
        forall|j: int| 0 <= j < text.len() ==> text[j] != '/',
    ensures
        !is_keyword_text(text),
{
    assert forall|namespace: Seq<char>, name: Seq<char>|
        is_segment(namespace) && is_segment(name) implies text != #[trigger] keyword_text(
        namespace,
        name,
    ) by {
        if text == keyword_text(namespace, name) {
            let at = namespace.len() as int;
            assert(text[at] == '/');
        }
    }
}

} // verus!
