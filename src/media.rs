use vstd::prelude::*;
use vstd::string::StringExecFns;

verus! {

/// A character of the Unicode White_Space property, which `char::is_whitespace`
/// tests.
pub open spec fn is_white_space(c: char) -> bool {
    let u = c as u32;
    ||| 0x9 <= u <= 0xd
    ||| u == 0x20
    ||| u == 0x85
    ||| u == 0xa0
    ||| u == 0x1680
    ||| 0x2000 <= u <= 0x200a
    ||| u == 0x2028
    ||| u == 0x2029
    ||| u == 0x202f
    ||| u == 0x205f
    ||| u == 0x3000
}

/// `r` is `s` without its leading and trailing white space.
pub open spec fn trims_to(s: Seq<char>, r: Seq<char>) -> bool {
    exists|a: int, b: int|
        {
            &&& 0 <= a <= b <= s.len()
            &&& r == s.subrange(a, b)
            &&& forall|i: int| 0 <= i < a ==> is_white_space(#[trigger] s[i])
            &&& forall|i: int| b <= i < s.len() ==> is_white_space(#[trigger] s[i])
            &&& a < b ==> !is_white_space(s[a]) && !is_white_space(s[b - 1])
        }
}

/// Relies on `str::trim`: the slice without leading and trailing
/// characters of the White_Space property.
#[verifier::external_body]
fn trimmed(s: &str) -> (r: &str)
    ensures
        trims_to(s@, r@),
{
    s.trim()
}

/// Nothing but white space.
pub open spec fn is_blank(s: Seq<char>) -> bool {
    forall|i: int| 0 <= i < s.len() ==> is_white_space(#[trigger] s[i])
}

proof fn lemma_trimmed_empty(s: Seq<char>, r: Seq<char>)
    requires
        trims_to(s, r),
    ensures
        (r.len() == 0) == is_blank(s),
{
    let (a, b) = choose|a: int, b: int|
        {
            &&& 0 <= a <= b <= s.len()
            &&& r == s.subrange(a, b)
            &&& forall|i: int| 0 <= i < a ==> is_white_space(#[trigger] s[i])
            &&& forall|i: int| b <= i < s.len() ==> is_white_space(#[trigger] s[i])
            &&& a < b ==> !is_white_space(s[a]) && !is_white_space(s[b - 1])
        };
    if r.len() == 0 {
        assert forall|i: int| 0 <= i < s.len() implies is_white_space(#[trigger] s[i]) by {
            if i >= a {
                assert(i >= b);
            }
        }
    } else {
        assert(!is_white_space(s[a]));
    }
}

pub open spec fn texts(v: Seq<String>) -> Seq<Seq<char>> {
    v.map_values(|s: String| s@)
}

pub open spec fn text_of(s: Option<String>) -> Option<Seq<char>> {
    match s {
        Some(t) => Some(t@),
        None => None,
    }
}

/// The words of `ws` that are not blank, in order.
pub open spec fn non_blank(ws: Seq<Seq<char>>) -> Seq<Seq<char>>
    decreases ws.len(),
{
    if ws.len() == 0 {
        Seq::empty()
    } else if is_blank(ws.last()) {
        non_blank(ws.drop_last())
    } else {
        non_blank(ws.drop_last()).push(ws.last())
    }
}

/// The words of `ws` separated by `", "`.
pub open spec fn comma_joined(ws: Seq<Seq<char>>) -> Seq<char>
    decreases ws.len(),
{
    if ws.len() == 0 {
        Seq::empty()
    } else if ws.len() == 1 {
        ws[0]
    } else {
        comma_joined(ws.drop_last()) + seq![',', ' '] + ws.last()
    }
}

/// `"title - artists"`, or whichever of the two there is.
pub open spec fn track_text(title: Option<Seq<char>>, artists: Seq<Seq<char>>) -> Option<Seq<char>> {
    match title {
        Some(t) => if artists.len() == 0 {
            Some(t)
        } else {
            Some(t + seq![' ', '-', ' '] + comma_joined(artists))
        },
        None => if artists.len() == 0 {
            None
        } else {
            Some(comma_joined(artists))
        },
    }
}

/// The player's line for a title and artists that are already cleaned of
/// blanks.
pub fn track_line(title: Option<&str>, artists: &Vec<String>) -> (r: Option<String>)
    ensures
        text_of(r) == track_text(
            match title {
                Some(t) => Some(t@),
                None => None,
            },
            texts(artists@),
        ),
{
    let mut joined = String::new();
    let mut i: usize = 0;
    while i < artists.len()
        invariant
            0 <= i <= artists@.len(),
            joined@ == comma_joined(texts(artists@).take(i as int)),
        decreases artists@.len() - i,
    {
        let ghost before = texts(artists@).take(i as int);
        assert(texts(artists@).take(i + 1).drop_last() =~= before);
        assert(texts(artists@).take(i + 1).last() == artists@[i as int]@);
        if i > 0 {
            joined.append(", ");
        } else {
            assert(before =~= Seq::<Seq<char>>::empty());
            assert(joined@ =~= Seq::<char>::empty());
        }
        joined.append(artists[i].as_str());
        proof {
            if i == 0 {
                assert(texts(artists@).take(1) =~= seq![artists@[0]@]);
                assert(joined@ =~= artists@[0]@);
            } else {
                assert(seq![',', ' '] =~= ", "@) by {
                    reveal_strlit(", ");
                }
            }
        }
        i = i + 1;
    }
    assert(texts(artists@).take(i as int) =~= texts(artists@));
    match title {
        Some(t) => {
            if artists.len() == 0 {
                Some(t.to_owned())
            } else {
                let line = t.to_owned().concat(" - ").concat(joined.as_str());
                assert(seq![' ', '-', ' '] =~= " - "@) by {
                    reveal_strlit(" - ");
                }
                Some(line)
            }
        },
        None => {
            if artists.len() == 0 {
                None
            } else {
                Some(joined)
            }
        },
    }
}

/// The artists that are not blank, in order.
pub fn non_blank_artists(artists: &Vec<String>) -> (r: Vec<String>)
    ensures
        texts(r@) == non_blank(texts(artists@)),
{
    let mut kept: Vec<String> = Vec::new();
    let mut i: usize = 0;
    while i < artists.len()
        invariant
            0 <= i <= artists@.len(),
            texts(kept@) == non_blank(texts(artists@).take(i as int)),
        decreases artists@.len() - i,
    {
        assert(texts(artists@).take(i + 1).drop_last() =~= texts(artists@).take(i as int));
        assert(texts(artists@).take(i + 1).last() == artists@[i as int]@);
        let a = artists[i].as_str();
        let rest = trimmed(a);
        proof {
            lemma_trimmed_empty(a@, rest@);
        }
        if !rest.is_empty() {
            let ghost before = kept@;
            kept.push(a.to_owned());
            assert(texts(kept@) =~= texts(before).push(artists@[i as int]@));
        }
        i = i + 1;
    }
    assert(texts(artists@).take(i as int) =~= texts(artists@));
    kept
}

/// The "now playing" text: the title unless it is blank, and the artists
/// that are not blank.
pub fn now_playing(title: Option<&str>, artists: Option<&Vec<String>>) -> (r: Option<String>)
    ensures
        text_of(r) == track_text(
            match title {
                Some(t) => if is_blank(t@) {
                    None
                } else {
                    Some(t@)
                },
                None => None,
            },
            match artists {
                Some(a) => non_blank(texts(a@)),
                None => Seq::empty(),
            },
        ),
{
    let kept_title = match title {
        Some(t) => {
            let rest = trimmed(t);
            proof {
                lemma_trimmed_empty(t@, rest@);
            }
            if rest.is_empty() {
                None
            } else {
                Some(t)
            }
        },
        None => None,
    };
    let kept_artists = match artists {
        Some(a) => non_blank_artists(a),
        None => Vec::new(),
    };
    proof {
        if artists is None {
            assert(texts(kept_artists@) =~= Seq::<Seq<char>>::empty());
        }
    }
    track_line(kept_title, &kept_artists)
}

} // verus!
