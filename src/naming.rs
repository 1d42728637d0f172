use vstd::prelude::*;
use vstd::string::StringExecFns;

verus! {

/// The title with every `.` and `?` replaced by `_`.
pub open spec fn sanitized(title: Seq<char>) -> Seq<char> {
    title.map_values(|c: char| if c == '.' || c == '?' { '_' } else { c })
}

/// The decimal digit character for a value below ten.
pub open spec fn digit_char(d: int) -> char {
    seq!['0', '1', '2', '3', '4', '5', '6', '7', '8', '9'][d]
}

/// Decimal text of `n`, without leading zeros.
pub open spec fn decimal(n: nat) -> Seq<char>
    decreases n,
{
    if n < 10 {
        seq![digit_char(n as int)]
    } else {
        decimal(n / 10).push(digit_char((n % 10) as int))
    }
}

/// The folder that files go to: the given one, or `out` when it is empty.
pub open spec fn output_dir(out_folder: Seq<char>) -> Seq<char> {
    if out_folder.len() == 0 {
        seq!['o', 'u', 't']
    } else {
        out_folder
    }
}

/// `<folder>/<sanitized title>_<index>.jpg`.
pub open spec fn artifact_path_of(out_folder: Seq<char>, title: Seq<char>, index: nat) -> Seq<
    char,
> {
    output_dir(out_folder) + seq!['/'] + sanitized(title) + seq!['_'] + decimal(index) + seq![
        '.',
        'j',
        'p',
        'g',
    ]
}

/// Relies on str::replace: every occurrence of the character `from` is
/// replaced by the text `to`, all other characters are kept in order.
#[verifier::external_body]
fn replace_char(s: &str, from: char, to: &str) -> (r: String)
    requires
        to@.len() == 1,
    ensures
        r@ == s@.map_values(|c: char| if c == from { to@[0] } else { c }),
{
    s.replace(from, to)
}

/// The title as it stands in a file name: `.` and `?` become `_`, every other
/// character is kept.
pub fn sanitize_title(title: &str) -> (r: String)
    ensures
        r@ == sanitized(title@),
        r@.len() == title@.len(),
        forall|k: int| 0 <= k < title@.len() && title@[k] != '.' && title@[k] != '?' ==> r@[k] == title@[k],
        forall|k: int| 0 <= k < title@.len() && (title@[k] == '.' || title@[k] == '?') ==> r@[k] == '_',
        (forall|k: int| 0 <= k < title@.len() ==> title@[k] != '.' && title@[k] != '?') ==> r@ == title@,
{
    proof {
        reveal_strlit("_");
    }
    let dots = replace_char(title, '.', "_");
    let r = replace_char(dots.as_str(), '?', "_");
    assert(r@ =~= sanitized(title@));
    proof {
        if forall|k: int| 0 <= k < title@.len() ==> title@[k] != '.' && title@[k] != '?' {
            assert(r@ =~= title@);
        }
    }
    r
}

/// The one-character text of a decimal digit.
fn digit_str(d: usize) -> (r: &'static str)
    requires
        d < 10,
    ensures
        r@ == seq![digit_char(d as int)],
{
    if d == 0 {
        proof { reveal_strlit("0"); }
        "0"
    } else if d == 1 {
        proof { reveal_strlit("1"); }
        "1"
    } else if d == 2 {
        proof { reveal_strlit("2"); }
        "2"
    } else if d == 3 {
        proof { reveal_strlit("3"); }
        "3"
    } else if d == 4 {
        proof { reveal_strlit("4"); }
        "4"
    } else if d == 5 {
        proof { reveal_strlit("5"); }
        "5"
    } else if d == 6 {
        proof { reveal_strlit("6"); }
        "6"
    } else if d == 7 {
        proof { reveal_strlit("7"); }
        "7"
    } else if d == 8 {
        proof { reveal_strlit("8"); }
        "8"
    } else {
        proof { reveal_strlit("9"); }
        "9"
    }
}

/// Decimal text of `n`.
pub fn decimal_string(n: usize) -> (r: String)
    ensures
        r@ == decimal(n as nat),
    decreases n,
{
    if n < 10 {
        String::from_str(digit_str(n))
    } else {
        let mut s = decimal_string(n / 10);
        s.append(digit_str(n % 10));
        s
    }
}

/// The folder that files go to: `out_folder`, or `out` when it is empty.
pub fn output_dir_for(out_folder: &str) -> (r: String)
    ensures
        r@ == output_dir(out_folder@),
{
    if out_folder.is_empty() {
        proof {
            reveal_strlit("out");
        }
        let r = String::from_str("out");
        assert(r@ =~= seq!['o', 'u', 't']);
        r
    } else {
        String::from_str(out_folder)
    }
}

/// Path of the file for the `index`-th image of the row titled `title`.
pub fn artifact_path(out_folder: &str, title: &str, index: usize) -> (r: String)
    ensures
        r@ == artifact_path_of(out_folder@, title@, index as nat),
{
    proof {
        reveal_strlit("/");
        reveal_strlit("_");
        reveal_strlit(".jpg");
    }
    let mut p = output_dir_for(out_folder);
    p.append("/");
    let stem = sanitize_title(title);
    p.append(stem.as_str());
    p.append("_");
    let digits = decimal_string(index);
    p.append(digits.as_str());
    p.append(".jpg");
    assert(p@ =~= artifact_path_of(out_folder@, title@, index as nat));
    p
}

} // verus!
