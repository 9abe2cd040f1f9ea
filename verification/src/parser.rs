//! The annotation grammar: a comment line carrying a `TODO`/`FIXME` marker may
//! hold a parenthesized tracking identifier followed by attributes. These
//! functions turn one line into a structured reference, exactly as the spec
//! functions beside them describe.

use vstd::prelude::*;
use vstd::string::*;

use crate::attrs::AttrMap;
use crate::text::{
    contains_str, find_str, find_sub, lemma_find_sub, match_at, spec_trim, split_sub, trim_str,
};
use crate::{AttrValueModel, ReferenceModel, TodoAttributeValue, TodoReference};

verus! {

/// An ASCII uppercase letter.
pub open spec fn is_upper_char(c: char) -> bool {
    let u = c as u32;
    65 <= u && u <= 90
}

/// An ASCII digit.
pub open spec fn is_digit_char(c: char) -> bool {
    let u = c as u32;
    48 <= u && u <= 57
}

/// The identifier grammar split at the hyphen `k`: uppercase letters before
/// it, digits after it, at least one of each.
pub open spec fn valid_id_split(s: Seq<char>, k: int) -> bool {
    &&& 1 <= k
    &&& k + 1 < s.len()
    &&& s[k] == '-'
    &&& forall|i: int| 0 <= i < k ==> is_upper_char(s[i])
    &&& forall|i: int| k < i < s.len() ==> is_digit_char(s[i])
}

/// A valid tracking identifier: one or more uppercase letters, one hyphen,
/// one or more digits, nothing else.
pub open spec fn spec_valid_id(s: Seq<char>) -> bool {
    exists|k: int| valid_id_split(s, k)
}

fn is_upper(c: char) -> (r: bool)
    ensures
        r == is_upper_char(c),
{
    let u = c as u32;
    65 <= u && u <= 90
}

fn is_digit(c: char) -> (r: bool)
    ensures
        r == is_digit_char(c),
{
    let u = c as u32;
    48 <= u && u <= 57
}

/// Whether `s` is a valid tracking identifier, as [`spec_valid_id`] defines.
/// This is the sole discriminator between tracked and untracked annotations.
pub fn is_valid_id(s: &str) -> (r: bool)
    ensures
        r == spec_valid_id(s@),
{
    let len = s.unicode_len();
    let mut i: usize = 0;
    while i < len && is_upper(s.get_char(i))
        invariant
            i <= len,
            len == s@.len(),
            forall|j: int| 0 <= j < i ==> is_upper_char(s@[j]),
        decreases len - i,
    {
        i += 1;
    }
    if i == 0 {
        proof {
            assert forall|k: int| !valid_id_split(s@, k) by {
                if 1 <= k && k + 1 < s@.len() {
                    assert(!is_upper_char(s@[0]));
                }
            }
        }
        return false;
    }
    if i >= len {
        proof {
            assert forall|k: int| !valid_id_split(s@, k) by {
                if 0 <= k < s@.len() {
                    assert(is_upper_char(s@[k]));
                }
            }
        }
        return false;
    }
    if s.get_char(i) != '-' {
        proof {
            assert forall|k: int| !valid_id_split(s@, k) by {
                if valid_id_split(s@, k) {
                    if k < i {
                        assert(is_upper_char(s@[k]));
                    } else if k > i {
                        assert(is_upper_char(s@[i as int]));
                    }
                }
            }
        }
        return false;
    }
    if i + 1 >= len {
        proof {
            assert forall|k: int| !valid_id_split(s@, k) by {
                if valid_id_split(s@, k) {
                    if k < i {
                        assert(is_upper_char(s@[k]));
                    } else if k > i {
                        assert(is_upper_char(s@[i as int]));
                    }
                }
            }
        }
        return false;
    }
    let mut j: usize = i + 1;
    while j < len
        invariant
            i + 1 <= j <= len,
            i + 1 < len,
            len == s@.len(),
            s@[i as int] == '-',
            forall|t: int| 0 <= t < i ==> is_upper_char(s@[t]),
            forall|t: int| i < t < j ==> is_digit_char(s@[t]),
        decreases len - j,
    {
        if !is_digit(s.get_char(j)) {
            proof {
                assert forall|k: int| !valid_id_split(s@, k) by {
                    if valid_id_split(s@, k) {
                        if k < i {
                            assert(is_upper_char(s@[k]));
                        } else if k > i {
                            assert(is_upper_char(s@[i as int]));
                        } else {
                            assert(is_digit_char(s@[j as int]));
                        }
                    }
                }
            }
            return false;
        }
        j += 1;
    }
    proof {
        assert(valid_id_split(s@, i as int));
    }
    true
}

/// The `TODO` marker.
pub open spec fn todo_marker() -> Seq<char> {
    seq!['T', 'O', 'D', 'O']
}

/// The `FIXME` marker.
pub open spec fn fixme_marker() -> Seq<char> {
    seq!['F', 'I', 'X', 'M', 'E']
}

/// The line holds a literal `TODO` or `FIXME` anywhere in its text.
pub open spec fn spec_has_marker(s: Seq<char>) -> bool {
    find_sub(s, todo_marker()) >= 0 || find_sub(s, fixme_marker()) >= 0
}

/// The line has a `(` and a later `)`, taking the first of each.
pub open spec fn spec_parens_ok(s: Seq<char>) -> bool {
    let o = find_sub(s, seq!['(']);
    let c = find_sub(s, seq![')']);
    o >= 0 && c >= 0 && c > o
}

/// The trimmed text strictly between the first `(` and the first `)`.
pub open spec fn spec_inside_parens(s: Seq<char>) -> Seq<char>
    recommends
        spec_parens_ok(s),
{
    spec_trim(s.subrange(find_sub(s, seq!['(']) + 1, find_sub(s, seq![')'])))
}

/// The reference a marker line declares, given that it holds a marker:
/// `TrackedId` exactly when the parenthetical's identifier segment validates,
/// `Untracked` otherwise.
pub open spec fn spec_reference_in(s: Seq<char>) -> ReferenceModel {
    if !spec_parens_ok(s) {
        ReferenceModel::Untracked
    } else {
        let inside = spec_inside_parens(s);
        let comma = find_sub(inside, seq![',']);
        if comma >= 0 {
            let id = spec_trim(inside.subrange(0, comma));
            if spec_valid_id(id) {
                ReferenceModel::TrackedId(id)
            } else {
                ReferenceModel::Untracked
            }
        } else {
            if spec_valid_id(inside) {
                ReferenceModel::TrackedId(inside)
            } else {
                ReferenceModel::Untracked
            }
        }
    }
}

/// What [`parse_todo_reference`] returns: no reference without a marker, else
/// the reference of [`spec_reference_in`].
pub open spec fn spec_parse_reference(s: Seq<char>) -> Option<ReferenceModel> {
    if spec_has_marker(s) {
        Some(spec_reference_in(s))
    } else {
        None
    }
}

/// Parse the tracking reference of one marker line.
///
/// A line without a literal `TODO` or `FIXME` yields no reference. A line
/// without parentheses, with them out of order, or with a parenthetical whose
/// identifier segment fails validation, is `Untracked`; only a valid
/// identifier yields `TrackedId`.
pub fn parse_todo_reference(line: &str) -> (r: Option<TodoReference>)
    ensures
        r.deep_view() == spec_parse_reference(line@),
{
    proof {
        reveal_strlit("TODO");
        reveal_strlit("FIXME");
        reveal_strlit("(");
        reveal_strlit(")");
        reveal_strlit(",");
        assert("TODO"@ =~= todo_marker());
        assert("FIXME"@ =~= fixme_marker());
        assert("("@ =~= seq!['(']);
        assert(")"@ =~= seq![')']);
        assert(","@ =~= seq![',']);
    }
    let has_todo = contains_str(line, "TODO");
    let has_fixme = contains_str(line, "FIXME");
    if !has_todo && !has_fixme {
        return None;
    }
    let open = find_str(line, "(");
    let close = find_str(line, ")");
    if let (Some(o), Some(c)) = (open, close) {
        if c > o {
            proof {
                lemma_find_sub(line@, ")"@);
                assert(match_at(line@, ")"@, c as int));
            }
            let inside = trim_str(line.substring_char(o + 1, c));
            let comma = find_str(inside, ",");
            if let Some(cm) = comma {
                proof {
                    lemma_find_sub(inside@, ","@);
                    assert(match_at(inside@, ","@, cm as int));
                }
                let id_part = trim_str(inside.substring_char(0, cm));
                if is_valid_id(id_part) {
                    return Some(TodoReference::TrackedId(String::from_str(id_part)));
                }
            } else {
                if is_valid_id(inside) {
                    return Some(TodoReference::TrackedId(String::from_str(inside)));
                }
            }
            return Some(TodoReference::Untracked);
        }
    }
    Some(TodoReference::Untracked)
}

/// The separator between attribute tokens: a comma followed by a space.
pub open spec fn attr_sep() -> Seq<char> {
    seq![',', ' ']
}

/// The key of one trimmed attribute token: the trimmed text before the first
/// `=`, or the whole token when it has none.
pub open spec fn spec_token_key(t: Seq<char>) -> Seq<char> {
    let e = find_sub(t, seq!['=']);
    if e >= 0 {
        spec_trim(t.subrange(0, e))
    } else {
        t
    }
}

/// Each piece trimmed, empty pieces dropped, order kept.
pub open spec fn trim_filter(parts: Seq<Seq<char>>) -> Seq<Seq<char>>
    decreases parts.len(),
{
    if parts.len() == 0 {
        Seq::empty()
    } else {
        let t = spec_trim(parts[0]);
        let rest = trim_filter(parts.drop_first());
        if t.len() > 0 {
            seq![t] + rest
        } else {
            rest
        }
    }
}

/// The elements of a list-valued attribute: the value split on commas,
/// trimmed, empties dropped.
pub open spec fn spec_list_items(v: Seq<char>) -> Seq<Seq<char>> {
    trim_filter(split_sub(v, seq![',']))
}

/// The value of one trimmed attribute token: a bare token is a flag, a
/// `key=value` is text, and a comma-holding value is a list.
pub open spec fn spec_token_value(t: Seq<char>) -> AttrValueModel {
    let e = find_sub(t, seq!['=']);
    if e >= 0 {
        let v = spec_trim(t.subrange(e + 1, t.len() as int));
        if find_sub(v, seq![',']) >= 0 {
            AttrValueModel::List(spec_list_items(v))
        } else {
            AttrValueModel::Text(v)
        }
    } else {
        AttrValueModel::Flag(true)
    }
}

/// One token applied to the accumulated mapping: an empty token changes
/// nothing, any other is inserted, overwriting its key.
pub open spec fn spec_apply_token(
    acc: Map<Seq<char>, AttrValueModel>,
    tok: Seq<char>,
) -> Map<Seq<char>, AttrValueModel> {
    let t = spec_trim(tok);
    if t.len() == 0 {
        acc
    } else {
        acc.insert(spec_token_key(t), spec_token_value(t))
    }
}

/// All tokens applied in order, later tokens overwriting earlier keys.
pub open spec fn spec_attrs_fold(
    toks: Seq<Seq<char>>,
    acc: Map<Seq<char>, AttrValueModel>,
) -> Map<Seq<char>, AttrValueModel>
    decreases toks.len(),
{
    if toks.len() == 0 {
        acc
    } else {
        spec_attrs_fold(toks.drop_first(), spec_apply_token(acc, toks[0]))
    }
}

/// What [`parse_attributes_from_string`] returns: the attribute source split
/// on `", "`, each token folded into a mapping.
pub open spec fn spec_parse_attr_string(s: Seq<char>) -> Map<Seq<char>, AttrValueModel> {
    spec_attrs_fold(split_sub(s, attr_sep()), Map::empty())
}

/// What [`parse_todo_attributes`] returns: attributes exist only on a marker
/// line whose parenthetical has the `identifier, attributes` shape with a
/// valid identifier; they are parsed from the trimmed text after the first
/// comma.
pub open spec fn spec_parse_attributes(s: Seq<char>) -> Option<Map<Seq<char>, AttrValueModel>> {
    if !spec_has_marker(s) || !spec_parens_ok(s) {
        None
    } else {
        let inside = spec_inside_parens(s);
        let comma = find_sub(inside, seq![',']);
        if comma >= 0 && spec_valid_id(spec_trim(inside.subrange(0, comma))) {
            Some(
                spec_parse_attr_string(
                    spec_trim(inside.subrange(comma + 1, inside.len() as int)),
                ),
            )
        } else {
            None
        }
    }
}

/// How [`split_sub`] unfolds one step, for a nonempty separator.
proof fn lemma_split_sub_step(s: Seq<char>, pat: Seq<char>)
    requires
        pat.len() >= 1,
    ensures
        find_sub(s, pat) < 0 ==> split_sub(s, pat) == seq![s],
        find_sub(s, pat) >= 0 ==> split_sub(s, pat) == seq![s.subrange(0, find_sub(s, pat))]
            + split_sub(s.subrange(find_sub(s, pat) + pat.len(), s.len() as int), pat),
{
    lemma_find_sub(s, pat);
    if find_sub(s, pat) >= 0 {
        assert(match_at(s, pat, find_sub(s, pat)));
    }
}

/// The comma-separated elements of a list value, trimmed, empties dropped.
fn split_list_items(v: &str) -> (items: Vec<String>)
    ensures
        items.deep_view() == spec_list_items(v@),
{
    proof {
        reveal_strlit(",");
        assert(","@ =~= seq![',']);
    }
    let mut items: Vec<String> = Vec::new();
    let mut rest: &str = v;
    loop
        invariant
            items.deep_view() + trim_filter(split_sub(rest@, seq![','])) == spec_list_items(
                v@,
            ),
        decreases rest@.len(),
    {
        proof {
            reveal_strlit(",");
            assert(","@ =~= seq![',']);
            lemma_find_sub(rest@, seq![',']);
            lemma_split_sub_step(rest@, seq![',']);
        }
        let rlen = rest.unicode_len();
        match find_str(rest, ",") {
            Some(i) => {
                proof {
                    assert(match_at(rest@, seq![','], i as int));
                }
                let piece = trim_str(rest.substring_char(0, i));
                let ghost old_items = items.deep_view();
                let ghost old_rest = rest@;
                if piece.unicode_len() > 0 {
                    items.push(String::from_str(piece));
                }
                rest = rest.substring_char(i + 1, rlen);
                proof {
                    let parts = split_sub(old_rest, seq![',']);
                    assert(parts[0] == old_rest.subrange(0, i as int));
                    assert(parts.drop_first() =~= split_sub(rest@, seq![',']));
                    if piece@.len() > 0 {
                        assert(items.deep_view() =~= old_items.push(piece@));
                        assert(trim_filter(parts) =~= seq![piece@] + trim_filter(
                            parts.drop_first(),
                        ));
                        assert(items.deep_view() + trim_filter(split_sub(rest@, seq![',']))
                            =~= old_items + trim_filter(parts));
                    } else {
                        assert(trim_filter(parts) == trim_filter(parts.drop_first()));
                    }
                }
            },
            None => {
                let piece = trim_str(rest);
                let ghost old_items = items.deep_view();
                if piece.unicode_len() > 0 {
                    items.push(String::from_str(piece));
                }
                proof {
                    let parts = split_sub(rest@, seq![',']);
                    assert(parts[0] == rest@);
                    assert(parts.drop_first() =~= Seq::<Seq<char>>::empty());
                    assert(trim_filter(parts.drop_first()) == Seq::<Seq<char>>::empty());
                    if piece@.len() > 0 {
                        assert(items.deep_view() =~= old_items.push(piece@));
                        assert(trim_filter(parts) =~= seq![piece@]);
                        assert(items.deep_view() =~= old_items + trim_filter(parts));
                    } else {
                        assert(trim_filter(parts) =~= Seq::<Seq<char>>::empty());
                        assert(items.deep_view() =~= old_items + trim_filter(parts));
                    }
                }
                return items;
            },
        }
    }
}

/// One attribute token folded into `m`, as [`spec_apply_token`] describes.
fn apply_attr_token(m: &mut AttrMap, tok: &str)
    requires
        old(m).wf(),
    ensures
        final(m).wf(),
        final(m)@ == spec_apply_token(old(m)@, tok@),
{
    proof {
        reveal_strlit("=");
        reveal_strlit(",");
        assert("="@ =~= seq!['=']);
        assert(","@ =~= seq![',']);
    }
    let t = trim_str(tok);
    let tlen = t.unicode_len();
    if tlen == 0 {
        return ;
    }
    match find_str(t, "=") {
        Some(e) => {
            proof {
                lemma_find_sub(t@, seq!['=']);
                assert(match_at(t@, seq!['='], e as int));
            }
            let key = trim_str(t.substring_char(0, e));
            let value = trim_str(t.substring_char(e + 1, tlen));
            if find_str(value, ",").is_some() {
                proof {
                    lemma_find_sub(value@, seq![',']);
                }
                let items = split_list_items(value);
                m.insert(String::from_str(key), TodoAttributeValue::List(items));
            } else {
                proof {
                    lemma_find_sub(value@, seq![',']);
                }
                m.insert(String::from_str(key), TodoAttributeValue::Text(String::from_str(value)));
            }
        },
        None => {
            m.insert(String::from_str(t), TodoAttributeValue::Flag(true));
        },
    }
}

/// Parse an attribute source string: tokens are separated by the literal
/// `", "`, a token with `=` is text or a list, one without is a flag, and a
/// later duplicate key overwrites the earlier one.
pub fn parse_attributes_from_string(attributes_str: &str) -> (r: AttrMap)
    ensures
        r.wf(),
        r@ == spec_parse_attr_string(attributes_str@),
{
    proof {
        reveal_strlit(", ");
        assert(", "@ =~= attr_sep());
    }
    let mut m = AttrMap::new();
    let mut rest: &str = attributes_str;
    loop
        invariant
            m.wf(),
            spec_attrs_fold(split_sub(rest@, attr_sep()), m@) == spec_parse_attr_string(
                attributes_str@,
            ),
        decreases rest@.len(),
    {
        proof {
            reveal_strlit(", ");
            assert(", "@ =~= attr_sep());
            lemma_find_sub(rest@, attr_sep());
            lemma_split_sub_step(rest@, attr_sep());
        }
        let rlen = rest.unicode_len();
        match find_str(rest, ", ") {
            Some(i) => {
                proof {
                    assert(match_at(rest@, attr_sep(), i as int));
                }
                let tok = rest.substring_char(0, i);
                let ghost old_m = m@;
                let ghost old_rest = rest@;
                apply_attr_token(&mut m, tok);
                rest = rest.substring_char(i + 2, rlen);
                proof {
                    let parts = split_sub(old_rest, attr_sep());
                    assert(parts[0] == tok@);
                    assert(parts.drop_first() =~= split_sub(rest@, attr_sep()));
                    assert(spec_attrs_fold(parts, old_m) == spec_attrs_fold(
                        parts.drop_first(),
                        spec_apply_token(old_m, tok@),
                    ));
                }
            },
            None => {
                let ghost old_m = m@;
                apply_attr_token(&mut m, rest);
                proof {
                    let parts = split_sub(rest@, attr_sep());
                    assert(parts[0] == rest@);
                    assert(parts.drop_first() =~= Seq::<Seq<char>>::empty());
                    assert(spec_attrs_fold(
                        Seq::<Seq<char>>::empty(),
                        spec_apply_token(old_m, rest@),
                    ) == spec_apply_token(old_m, rest@));
                    assert(spec_attrs_fold(parts, old_m) == spec_apply_token(old_m, rest@));
                }
                return m;
            },
        }
    }
}

/// Parse the attribute set of one marker line.
///
/// Attributes exist only when the parenthetical has the shape
/// `identifier, attributes` with a valid identifier; every other line,
/// including one whose parenthetical lacks a comma, has none.
pub fn parse_todo_attributes(line: &str) -> (r: Option<AttrMap>)
    ensures
        match r {
            Some(m) => m.wf() && spec_parse_attributes(line@) == Some(m@),
            None => spec_parse_attributes(line@) is None,
        },
{
    proof {
        reveal_strlit("TODO");
        reveal_strlit("FIXME");
        reveal_strlit("(");
        reveal_strlit(")");
        reveal_strlit(",");
        assert("TODO"@ =~= todo_marker());
        assert("FIXME"@ =~= fixme_marker());
        assert("("@ =~= seq!['(']);
        assert(")"@ =~= seq![')']);
        assert(","@ =~= seq![',']);
    }
    let has_todo = contains_str(line, "TODO");
    let has_fixme = contains_str(line, "FIXME");
    if !has_todo && !has_fixme {
        return None;
    }
    let open = find_str(line, "(");
    let close = find_str(line, ")");
    if let (Some(o), Some(c)) = (open, close) {
        if c > o {
            proof {
                lemma_find_sub(line@, ")"@);
                assert(match_at(line@, ")"@, c as int));
            }
            let inside = trim_str(line.substring_char(o + 1, c));
            let ilen = inside.unicode_len();
            if let Some(cm) = find_str(inside, ",") {
                proof {
                    lemma_find_sub(inside@, ","@);
                    assert(match_at(inside@, ","@, cm as int));
                }
                let id_part = trim_str(inside.substring_char(0, cm));
                if is_valid_id(id_part) {
                    let attr_src = trim_str(inside.substring_char(cm + 1, ilen));
                    return Some(parse_attributes_from_string(attr_src));
                }
            }
        }
    }
    None
}

/// A marker line without a `(`, without a `)`, or whose first `)` comes
/// before its first `(`, is untracked and carries no attributes.
pub proof fn lemma_bad_parens_untracked(s: Seq<char>)
    requires
        spec_has_marker(s),
        !spec_parens_ok(s),
    ensures
        spec_parse_reference(s) == Some(ReferenceModel::Untracked),
        spec_parse_attributes(s) is None,
{
}

/// An empty parenthetical never validates: such a marker line is untracked
/// and carries no attributes.
pub proof fn lemma_empty_parenthetical_untracked(s: Seq<char>)
    requires
        spec_has_marker(s),
        spec_parens_ok(s),
        spec_inside_parens(s).len() == 0,
    ensures
        spec_parse_reference(s) == Some(ReferenceModel::Untracked),
        spec_parse_attributes(s) is None,
{
    let inside = spec_inside_parens(s);
    assert(find_sub(inside, seq![',']) == -1);
    assert(!spec_valid_id(inside)) by {
        if spec_valid_id(inside) {
            let k = choose|k: int| valid_id_split(inside, k);
            assert(k + 1 < 0);
        }
    }
}

/// Parsing is pure: equal lines parse to structurally equal references and
/// attribute mappings, however often they are parsed.
pub proof fn lemma_parse_is_pure(a: Seq<char>, b: Seq<char>)
    requires
        a == b,
    ensures
        spec_parse_reference(a) == spec_parse_reference(b),
        spec_parse_attributes(a) == spec_parse_attributes(b),
{
}

/// The reference parsed from `r`, seen only by its variant.
pub open spec fn is_tracked_ref(r: Option<ReferenceModel>) -> bool {
    match r {
        Some(ReferenceModel::TrackedId(_)) => true,
        _ => false,
    }
}

/// The reference and the attributes never disagree about the parenthetical:
/// a line that carries attributes carries a tracked reference, for both
/// parsers locate the parentheses and validate the identifier by the same
/// rules.
pub proof fn lemma_attributes_imply_tracked(s: Seq<char>)
    requires
        spec_parse_attributes(s) is Some,
    ensures
        is_tracked_ref(spec_parse_reference(s)),
{
}

} // verus!
