//! Decimal rendering of numbers and the path syntax used by plugin and
//! session paths: components are separated by `/` (Unix style); file names
//! may also be read with `\` as a separator, for Windows bundle paths.

use vstd::prelude::*;

verus! {

/// The character of a decimal digit.
pub open spec fn digit_char(d: nat) -> char {
    if d == 0 {
        '0'
    } else if d == 1 {
        '1'
    } else if d == 2 {
        '2'
    } else if d == 3 {
        '3'
    } else if d == 4 {
        '4'
    } else if d == 5 {
        '5'
    } else if d == 6 {
        '6'
    } else if d == 7 {
        '7'
    } else if d == 8 {
        '8'
    } else {
        '9'
    }
}

/// Decimal notation of `n`, without sign or leading zeros.
pub open spec fn decimal(n: nat) -> Seq<char>
    decreases n,
{
    if n < 10 {
        seq![digit_char(n)]
    } else {
        decimal(n / 10) + seq![digit_char(n % 10)]
    }
}

fn digit_str(d: u64) -> (s: &'static str)
    requires
        d < 10,
    ensures
        s@ == seq![digit_char(d as nat)],
{
    proof {
        reveal_strlit("0");
        reveal_strlit("1");
        reveal_strlit("2");
        reveal_strlit("3");
        reveal_strlit("4");
        reveal_strlit("5");
        reveal_strlit("6");
        reveal_strlit("7");
        reveal_strlit("8");
        reveal_strlit("9");
    }
    if d == 0 {
        "0"
    } else if d == 1 {
        "1"
    } else if d == 2 {
        "2"
    } else if d == 3 {
        "3"
    } else if d == 4 {
        "4"
    } else if d == 5 {
        "5"
    } else if d == 6 {
        "6"
    } else if d == 7 {
        "7"
    } else if d == 8 {
        "8"
    } else {
        "9"
    }
}

/// Append the decimal notation of `n` to `s`.
pub fn push_decimal(s: &mut String, n: u64)
    ensures
        final(s)@ == old(s)@ + decimal(n as nat),
    decreases n,
{
    if n >= 10 {
        push_decimal(s, n / 10);
    }
    s.append(digit_str(n % 10));
}

/// `prefix`, the decimal notation of `n`, then `suffix`.
pub fn text_with_number(prefix: &str, n: u64, suffix: &str) -> (s: String)
    ensures
        s@ == prefix@ + decimal(n as nat) + suffix@,
{
    let mut s = String::from_str(prefix);
    push_decimal(&mut s, n);
    s.append(suffix);
    s
}

/// The characters of `s`, one per element.
pub fn chars_of(s: &str) -> (v: Vec<char>)
    ensures
        v@ == s@,
{
    let n = s.unicode_len();
    let mut v: Vec<char> = Vec::new();
    let mut i: usize = 0;
    while i < n
        invariant
            i <= n,
            n == s@.len(),
            v@ == s@.take(i as int),
        decreases n - i,
    {
        v.push(s.get_char(i));
        i = i + 1;
        assert(v@ =~= s@.take(i as int));
    }
    assert(s@.take(n as int) =~= s@);
    v
}

/// The path starts at the root directory.
pub open spec fn is_absolute(p: Seq<char>) -> bool {
    p.len() > 0 && p[0] == '/'
}

/// The path holds a `..` component.
pub open spec fn has_parent_component(p: Seq<char>) -> bool {
    exists|i: int| #![trigger p[i]]
        0 <= i && i + 2 <= p.len() && p[i] == '.' && p[i + 1] == '.' && (i == 0 || p[i - 1] == '/')
            && (i + 2 == p.len() || p[i + 2] == '/')
}

/// Decide whether a path holds a `..` component.
pub fn contains_parent_component(p: &str) -> (b: bool)
    ensures
        b == has_parent_component(p@),
{
    let v = chars_of(p);
    let n = v.len();
    let mut i: usize = 0;
    if n < 2 {
        return false;
    }
    while i <= n - 2
        invariant
            n >= 2,
            n == v@.len(),
            v@ == p@,
            forall|j: int| #![trigger v@[j]]
                0 <= j < i && j + 2 <= n ==> !(v@[j] == '.' && v@[j + 1] == '.' && (j == 0 || v@[j - 1]
                    == '/') && (j + 2 == n || v@[j + 2] == '/')),
        decreases n - i,
    {
        if v[i] == '.' && v[i + 1] == '.' && (i == 0 || v[i - 1] == '/') && (i + 2 == n || v[i
            + 2] == '/') {
            assert(v@[i as int] == '.');
            return true;
        }
        i = i + 1;
    }
    false
}

/// `c` separates path components: `/` always, and `\` as well under the
/// Windows convention (`win`).
pub open spec fn is_sep(c: char, win: bool) -> bool {
    c == '/' || (win && c == '\\')
}

/// The path ends with a `.` component that follows a separator.
pub open spec fn ends_with_cur_dir(p: Seq<char>, win: bool) -> bool {
    p.len() >= 2 && p.last() == '.' && is_sep(p[p.len() - 2], win)
}

/// Length of the path once trailing separators and trailing `.`
/// components are removed.
pub open spec fn trimmed_len(p: Seq<char>, win: bool) -> int
    decreases p.len(),
{
    if p.len() > 0 && is_sep(p.last(), win) {
        trimmed_len(p.drop_last(), win)
    } else if ends_with_cur_dir(p, win) {
        trimmed_len(p.drop_last(), win)
    } else {
        p.len() as int
    }
}

/// Start of the last component: one past the last separator before `end`.
pub open spec fn component_start(p: Seq<char>, end: int, win: bool) -> int
    decreases end,
{
    if end <= 0 {
        0
    } else if is_sep(p[end - 1], win) {
        end
    } else {
        component_start(p, end - 1, win)
    }
}

/// The last component of the path, trailing separators and trailing `.`
/// components ignored; `None` when it is empty, `.` or `..`.
pub open spec fn file_name(p: Seq<char>, win: bool) -> Option<Seq<char>> {
    let end = trimmed_len(p, win);
    let name = p.subrange(component_start(p, end, win), end);
    if name.len() == 0 || name == seq!['.'] || name == seq!['.', '.'] {
        None
    } else {
        Some(name)
    }
}

/// Position of the last `.` in `name` before `end`, or -1.
pub open spec fn last_dot(name: Seq<char>, end: int) -> int
    decreases end,
{
    if end <= 0 {
        -1
    } else if name[end - 1] == '.' {
        end - 1
    } else {
        last_dot(name, end - 1)
    }
}

/// The part of a file name after its last `.`; `None` when there is no `.`
/// or the only one starts the name.
pub open spec fn name_extension(name: Seq<char>) -> Option<Seq<char>> {
    let d = last_dot(name, name.len() as int);
    if d <= 0 {
        None
    } else {
        Some(name.subrange(d + 1, name.len() as int))
    }
}

/// The part of a file name before its last `.` (the whole name when the
/// name has no extension).
pub open spec fn name_stem(name: Seq<char>) -> Seq<char> {
    let d = last_dot(name, name.len() as int);
    if d <= 0 {
        name
    } else {
        name.subrange(0, d)
    }
}

/// Extension of the path's file name.
pub open spec fn extension(p: Seq<char>) -> Option<Seq<char>> {
    match file_name(p, false) {
        Some(name) => name_extension(name),
        None => None,
    }
}

/// Stem of the path's file name.
pub open spec fn file_stem(p: Seq<char>, win: bool) -> Option<Seq<char>> {
    match file_name(p, win) {
        Some(name) => Some(name_stem(name)),
        None => None,
    }
}

fn trimmed_len_exec(v: &Vec<char>, win: bool) -> (e: usize)
    ensures
        e == trimmed_len(v@, win),
        e <= v.len(),
{
    let mut e = v.len();
    proof {
        assert(v@.take(v.len() as int) =~= v@);
    }
    while e > 0 && ((v[e - 1] == '/' || (win && v[e - 1] == '\\')) || (e >= 2 && v[e - 1] == '.' && (v[e
        - 2] == '/' || (win && v[e - 2] == '\\'))))
        invariant
            e <= v.len(),
            trimmed_len(v@, win) == trimmed_len(v@.take(e as int), win),
        decreases e,
    {
        proof {
            assert(v@.take(e as int).drop_last() =~= v@.take(e - 1));
        }
        e = e - 1;
    }
    proof {
        assert(v@.take(v.len() as int) =~= v@);
    }
    e
}

fn component_start_exec(v: &Vec<char>, end: usize, win: bool) -> (s: usize)
    requires
        end <= v.len(),
    ensures
        s == component_start(v@, end as int, win),
        s <= end,
{
    let mut s = end;
    while s > 0 && !(v[s - 1] == '/' || (win && v[s - 1] == '\\'))
        invariant
            s <= end,
            end <= v.len(),
            component_start(v@, end as int, win) == component_start(v@, s as int, win),
        decreases s,
    {
        s = s - 1;
    }
    s
}

fn last_dot_exec(v: &Vec<char>, from: usize, end: usize) -> (d: i64)
    requires
        from <= end <= v.len(),
        end <= i64::MAX,
    ensures
        d == last_dot(v@.subrange(from as int, end as int), (end - from) as int),
{
    let ghost name = v@.subrange(from as int, end as int);
    let mut e = end;
    while e > from && v[e - 1] != '.'
        invariant
            from <= e <= end,
            end <= v.len(),
            name == v@.subrange(from as int, end as int),
            last_dot(name, (end - from) as int) == last_dot(name, (e - from) as int),
        decreases e,
    {
        e = e - 1;
    }
    if e == from {
        -1
    } else {
        (e - from - 1) as i64
    }
}

/// Positions of the file name of a path: start, end and last dot inside it.
fn file_name_bounds(v: &Vec<char>, win: bool) -> (r: (usize, usize, i64))
    requires
        v.len() <= i64::MAX,
    ensures
        r.0 == component_start(v@, trimmed_len(v@, win), win),
        r.1 == trimmed_len(v@, win),
        r.0 <= r.1 <= v.len(),
        r.2 == last_dot(v@.subrange(r.0 as int, r.1 as int), (r.1 - r.0) as int),
{
    let end = trimmed_len_exec(v, win);
    let start = component_start_exec(v, end, win);
    let d = last_dot_exec(v, start, end);
    (start, end, d)
}

pub proof fn lemma_last_dot_range(name: Seq<char>, end: int)
    requires
        end <= name.len(),
    ensures
        -1 <= last_dot(name, end) < end || (end <= 0 && last_dot(name, end) == -1),
        last_dot(name, end) >= 0 ==> name[last_dot(name, end)] == '.',
    decreases end,
{
    if end > 0 && name[end - 1] != '.' {
        lemma_last_dot_range(name, end - 1);
    }
}

/// The file name of a path, if it has one.
pub fn path_file_name(p: &str) -> (r: Option<String>)
    requires
        p@.len() <= i64::MAX,
    ensures
        match (r, file_name(p@, false)) {
            (Some(s), Some(n)) => s@ == n,
            (None, None) => true,
            _ => false,
        },
{
    let v = chars_of(p);
    let (start, end, _d) = file_name_bounds(&v, false);
    let name = p.substring_char(start, end);
    let ghost spec_name = p@.subrange(
        component_start(p@, trimmed_len(p@, false), false),
        trimmed_len(p@, false),
    );
    let is_dotdot = end - start == 2 && v[start] == '.' && v[start + 1] == '.';
    let is_dot = end - start == 1 && v[start] == '.';
    proof {
        assert(v@ == p@);
        assert(name@ == spec_name);
        if end - start == 1 {
            if is_dot {
                assert(name@ =~= seq!['.']);
            } else {
                assert(name@[0] == v@[start as int]);
                assert(name@ != seq!['.']);
            }
        }
        if end - start == 2 {
            if is_dotdot {
                assert(name@ =~= seq!['.', '.']);
            } else {
                assert(name@[0] == v@[start as int]);
                assert(name@[1] == v@[start + 1]);
                assert(name@ != seq!['.', '.']);
            }
        }
    }
    if start == end || is_dot || is_dotdot {
        assert(file_name(p@, false) is None);
        None
    } else {
        let r = String::from_str(name);
        assert(file_name(p@, false) == Some(spec_name));
        Some(r)
    }
}

/// The extension of a path's file name, if it has one.
pub fn path_extension(p: &str) -> (r: Option<String>)
    requires
        p@.len() <= i64::MAX,
    ensures
        match (r, extension(p@)) {
            (Some(s), Some(e)) => s@ == e,
            (None, None) => true,
            _ => false,
        },
{
    let v = chars_of(p);
    let (start, end, d) = file_name_bounds(&v, false);
    let ghost name = p@.subrange(start as int, end as int);
    let is_dotdot = end - start == 2 && v[start] == '.' && v[start + 1] == '.';
    let is_dot = end - start == 1 && v[start] == '.';
    proof {
        assert(v@ == p@);
        assert(name == p@.subrange(component_start(p@, trimmed_len(p@, false), false), trimmed_len(p@, false)));
        assert(v@.subrange(start as int, end as int) == name);
        lemma_last_dot_range(name, name.len() as int);
        if end - start == 1 {
            if is_dot {
                assert(name =~= seq!['.']);
            } else {
                assert(name[0] == v@[start as int]);
            }
        }
        if end - start == 2 {
            if is_dotdot {
                assert(name =~= seq!['.', '.']);
            } else {
                assert(name[0] == v@[start as int]);
                assert(name[1] == v@[start + 1]);
            }
        }
    }
    if start == end || is_dot || is_dotdot || d <= 0 {
        None
    } else {
        let ext = p.substring_char(start + d as usize + 1, end);
        proof {
            assert(ext@ =~= name.subrange(d + 1, name.len() as int));
        }
        Some(String::from_str(ext))
    }
}

/// The stem of a path's file name, if the path has a file name (`win`:
/// `\` separates components too).
pub fn path_file_stem(p: &str, win: bool) -> (r: Option<String>)
    requires
        p@.len() <= i64::MAX,
    ensures
        match (r, file_stem(p@, win)) {
            (Some(s), Some(e)) => s@ == e,
            (None, None) => true,
            _ => false,
        },
{
    let v = chars_of(p);
    let (start, end, d) = file_name_bounds(&v, win);
    let ghost name = p@.subrange(start as int, end as int);
    let is_dotdot = end - start == 2 && v[start] == '.' && v[start + 1] == '.';
    let is_dot = end - start == 1 && v[start] == '.';
    proof {
        assert(v@ == p@);
        assert(name == p@.subrange(component_start(p@, trimmed_len(p@, win), win), trimmed_len(p@, win)));
        assert(v@.subrange(start as int, end as int) == name);
        lemma_last_dot_range(name, name.len() as int);
        if end - start == 1 {
            if is_dot {
                assert(name =~= seq!['.']);
            } else {
                assert(name[0] == v@[start as int]);
            }
        }
        if end - start == 2 {
            if is_dotdot {
                assert(name =~= seq!['.', '.']);
            } else {
                assert(name[0] == v@[start as int]);
                assert(name[1] == v@[start + 1]);
            }
        }
    }
    if start == end || is_dot || is_dotdot {
        None
    } else if d <= 0 {
        Some(String::from_str(p.substring_char(start, end)))
    } else {
        let stem = p.substring_char(start, start + d as usize);
        proof {
            assert(stem@ =~= name.subrange(0, d as int));
        }
        Some(String::from_str(stem))
    }
}

/// `base` followed by `part`, with one separator between them unless `base`
/// is empty or already ends with one.
pub open spec fn join_path(base: Seq<char>, part: Seq<char>) -> Seq<char> {
    if base.len() == 0 || base.last() == '/' {
        base + part
    } else {
        base + seq!['/'] + part
    }
}

/// Join a relative component onto a path.
pub fn path_join(base: &str, part: &str) -> (r: String)
    ensures
        r@ == join_path(base@, part@),
{
    proof {
        reveal_strlit("/");
    }
    let n = base.unicode_len();
    let mut r = String::from_str(base);
    if n > 0 && base.get_char(n - 1) != '/' {
        r.append("/");
    }
    r.append(part);
    r
}

/// ASCII case-insensitive equality of two character sequences.
pub open spec fn eq_ignore_ascii_case(a: Seq<char>, b: Seq<char>) -> bool {
    a.len() == b.len() && forall|i: int| 0 <= i < a.len() ==> ascii_lower(a[i]) == ascii_lower(#[trigger] b[i])
}

/// Code of the lower-case form of an ASCII letter; other characters keep
/// their own code.
pub open spec fn ascii_lower(c: char) -> int {
    if 'A' <= c <= 'Z' {
        (c as u32) + 32
    } else {
        c as u32 as int
    }
}

fn ascii_lower_exec(c: char) -> (r: u32)
    ensures
        r == ascii_lower(c),
{
    if 'A' <= c && c <= 'Z' {
        c as u32 + 32
    } else {
        c as u32
    }
}

/// Decide ASCII case-insensitive equality.
pub fn str_eq_ignore_ascii_case(a: &str, b: &str) -> (r: bool)
    ensures
        r == eq_ignore_ascii_case(a@, b@),
{
    let va = chars_of(a);
    let vb = chars_of(b);
    if va.len() != vb.len() {
        return false;
    }
    let mut i: usize = 0;
    while i < va.len()
        invariant
            va@ == a@,
            vb@ == b@,
            va.len() == vb.len(),
            i <= va.len(),
            forall|j: int| 0 <= j < i ==> ascii_lower(va@[j]) == ascii_lower(#[trigger] vb@[j]),
        decreases va.len() - i,
    {
        if ascii_lower_exec(va[i]) != ascii_lower_exec(vb[i]) {
            return false;
        }
        i = i + 1;
    }
    true
}

/// Decide whether `needle` occurs in `hay` as a contiguous run.
pub open spec fn contains_substr(hay: Seq<char>, needle: Seq<char>) -> bool {
    exists|i: int| 0 <= i && i + needle.len() <= hay.len() && #[trigger] hay.subrange(i, i + needle.len()) == needle
}

/// Substring search.
pub fn str_contains(hay: &str, needle: &str) -> (r: bool)
    ensures
        r == contains_substr(hay@, needle@),
{
    let h = chars_of(hay);
    let nd = chars_of(needle);
    let hn = h.len();
    let nn = nd.len();
    if nn > hn {
        return false;
    }
    let mut i: usize = 0;
    while i <= hn - nn
        invariant
            h@ == hay@,
            nd@ == needle@,
            hn == h.len(),
            nn == nd.len(),
            nn <= hn,
            forall|j: int| 0 <= j < i && j + nn <= hn ==> #[trigger] hay@.subrange(j, j + nn) != needle@,
        decreases hn - i,
    {
        let mut k: usize = 0;
        while k < nn && h[i + k] == nd[k]
            invariant
                k <= nn,
                i + nn <= hn,
                hn == h.len(),
                nn == nd.len(),
                forall|t: int| 0 <= t < k ==> h@[i + t] == nd@[t],
            decreases nn - k,
        {
            k = k + 1;
        }
        if k == nn {
            assert(hay@.subrange(i as int, i + nn) =~= needle@);
            return true;
        }
        assert(hay@.subrange(i as int, i + nn)[k as int] != needle@[k as int]);
        i = i + 1;
    }
    false
}

/// Exact equality of two strings.
pub fn str_equals(a: &str, b: &str) -> (r: bool)
    ensures
        r == (a@ == b@),
{
    let va = chars_of(a);
    let vb = chars_of(b);
    if va.len() != vb.len() {
        return false;
    }
    let mut i: usize = 0;
    while i < va.len()
        invariant
            va@ == a@,
            vb@ == b@,
            va.len() == vb.len(),
            i <= va.len(),
            forall|j: int| 0 <= j < i ==> va@[j] == vb@[j],
        decreases va.len() - i,
    {
        if va[i] != vb[i] {
            return false;
        }
        i = i + 1;
    }
    assert(a@ =~= b@);
    true
}

} // verus!
