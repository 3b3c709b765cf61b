use vstd::prelude::*;
use vstd::utf8::encode_utf8;
use crate::json::{json_string, string};
use crate::profile::{views, Profile, ProfileView};
use crate::text::push_spaces;

verus! {

broadcast use vstd::seq_lib::group_seq_properties;

/// A profile as one JSON object: name, account and configuration directory.
pub open spec fn profile_json(p: ProfileView) -> Seq<char> {
    "{\"name\":"@ + json_string(p.name) + ",\"account\":"@ + json_string(p.account)
        + ",\"gws_config_dir\":"@ + json_string(p.gws_config_dir) + "}"@
}

/// Writes a profile as one JSON object; nothing but its metadata goes in.
pub fn as_json(profile: &Profile) -> (out: String)
    ensures
        out@ == profile_json(profile@),
{
    let mut out = String::from_str("{\"name\":");
    out.append(string(profile.name.as_str()).as_str());
    out.append(",\"account\":");
    out.append(string(profile.account.as_str()).as_str());
    out.append(",\"gws_config_dir\":");
    out.append(string(profile.gws_config_dir.as_str()).as_str());
    out.append("}");
    out
}

/// `n` spaces.
pub open spec fn spaces(n: int) -> Seq<char> {
    Seq::new(if n > 0 { n as nat } else { 0 }, |i: int| ' ')
}

/// The widest name, in bytes.
pub open spec fn name_width(ps: Seq<ProfileView>) -> nat
    decreases ps.len(),
{
    if ps.len() == 0 {
        0
    } else {
        let w = name_width(ps.drop_last());
        let n = encode_utf8(ps.last().name).len();
        if n > w {
            n
        } else {
            w
        }
    }
}

/// One line of the plain listing: the name padded to `width`, two spaces, the account.
pub open spec fn plain_line(p: ProfileView, width: nat) -> Seq<char> {
    p.name + spaces(width - p.name.len()) + "  "@ + p.account + seq!['\n']
}

pub open spec fn plain_lines(ps: Seq<ProfileView>, width: nat) -> Seq<char>
    decreases ps.len(),
{
    if ps.len() == 0 {
        Seq::empty()
    } else {
        plain_lines(ps.drop_last(), width) + plain_line(ps.last(), width)
    }
}

/// The JSON objects of the profiles, separated by commas.
pub open spec fn json_items(ps: Seq<ProfileView>) -> Seq<char>
    decreases ps.len(),
{
    if ps.len() == 0 {
        Seq::empty()
    } else if ps.len() == 1 {
        profile_json(ps[0])
    } else {
        json_items(ps.drop_last()) + seq![','] + profile_json(ps.last())
    }
}

/// What `profile list` prints for these profiles.
pub open spec fn render_list_spec(ps: Seq<ProfileView>, json: bool) -> Seq<char> {
    if json {
        "{\"profiles\":["@ + json_items(ps) + "]}\n"@
    } else {
        plain_lines(ps, name_width(ps))
    }
}

/// Renders `profile list`: one JSON document, or one aligned line per profile.
pub fn render_list(profiles: &Vec<Profile>, json: bool) -> (out: String)
    ensures
        out@ == render_list_spec(views(profiles@), json),
{
    let ghost ps = views(profiles@);
    if json {
        let mut out = String::from_str("{\"profiles\":[");
        let mut i: usize = 0;
        while i < profiles.len()
            invariant
                ps == views(profiles@),
                i <= profiles@.len(),
                out@ == "{\"profiles\":["@ + json_items(ps.take(i as int)),
            decreases profiles@.len() - i,
        {
            proof {
                assert(ps.take(i + 1).drop_last() =~= ps.take(i as int));
                assert(ps.take(i + 1).last() == profiles@[i as int]@);
                if i == 0 {
                    assert(ps.take(0) =~= Seq::<ProfileView>::empty());
                }
            }
            if i > 0 {
                out.append(",");
                proof {
                    reveal_strlit(",");
                }
            }
            let item = as_json(&profiles[i]);
            out.append(item.as_str());
            i = i + 1;
        }
        proof {
            assert(ps.take(i as int) =~= ps);
        }
        out.append("]}\n");
        out
    } else {
        // the width of the widest name
        let mut width: usize = 0;
        let mut i: usize = 0;
        while i < profiles.len()
            invariant
                ps == views(profiles@),
                i <= profiles@.len(),
                width == name_width(ps.take(i as int)),
            decreases profiles@.len() - i,
        {
            proof {
                assert(ps.take(i + 1).drop_last() =~= ps.take(i as int));
            }
            let n = profiles[i].name.as_str().as_bytes().len();
            if n > width {
                width = n;
            }
            i = i + 1;
        }
        proof {
            assert(ps.take(i as int) =~= ps);
        }
        let mut out = String::new();
        let mut j: usize = 0;
        while j < profiles.len()
            invariant
                ps == views(profiles@),
                j <= profiles@.len(),
                width == name_width(ps),
                out@ == plain_lines(ps.take(j as int), width as nat),
            decreases profiles@.len() - j,
        {
            proof {
                assert(ps.take(j + 1).drop_last() =~= ps.take(j as int));
                reveal_strlit("  ");
            }
            let p = &profiles[j];
            out.append(p.name.as_str());
            let chars = p.name.as_str().unicode_len();
            if chars < width {
                push_spaces(&mut out, width - chars);
            }
            out.append("  ");
            out.append(p.account.as_str());
            crate::text::push_char(&mut out, '\n');
            proof {
                assert(out@ =~= plain_lines(ps.take(j + 1), width as nat));
            }
            j = j + 1;
        }
        proof {
            assert(ps.take(j as int) =~= ps);
        }
        out
    }
}

/// What `profile show` prints for a profile.
pub open spec fn render_show_spec(p: ProfileView, json: bool) -> Seq<char> {
    if json {
        profile_json(p) + seq!['\n']
    } else {
        "name     "@ + p.name + "\naccount  "@ + p.account + "\ngws-dir  "@ + p.gws_config_dir
            + seq!['\n']
    }
}

/// Renders `profile show`.
pub fn render_show(profile: &Profile, json: bool) -> (out: String)
    ensures
        out@ == render_show_spec(profile@, json),
{
    let mut out;
    if json {
        out = as_json(profile);
    } else {
        out = String::from_str("name     ");
        out.append(profile.name.as_str());
        out.append("\naccount  ");
        out.append(profile.account.as_str());
        out.append("\ngws-dir  ");
        out.append(profile.gws_config_dir.as_str());
    }
    crate::text::push_char(&mut out, '\n');
    out
}

/// What `profile add` prints once the profile exists.
pub open spec fn render_added_spec(p: ProfileView) -> Seq<char> {
    "added profile "@ + p.name + " ("@ + p.account + ")\nrun: gw "@ + p.name
        + " auth login   # to authenticate this profile\n"@
}

/// Renders the confirmation of `profile add`.
pub fn render_added(profile: &Profile) -> (out: String)
    ensures
        out@ == render_added_spec(profile@),
{
    let mut out = String::from_str("added profile ");
    out.append(profile.name.as_str());
    out.append(" (");
    out.append(profile.account.as_str());
    out.append(")\nrun: gw ");
    out.append(profile.name.as_str());
    out.append(" auth login   # to authenticate this profile\n");
    out
}

/// The JSON listing's items are the profile objects in order, exactly one comma
/// between each consecutive pair and none elsewhere: no objects gives nothing,
/// one gives that object, and adding a profile to a non-empty listing adds a
/// comma and its object.
pub proof fn law_json_items_are_comma_joined(ps: Seq<ProfileView>, p: ProfileView)
    ensures
        json_items(Seq::empty()) == Seq::<char>::empty(),
        json_items(seq![p]) == profile_json(p),
        ps.len() > 0 ==> json_items(ps.push(p)) == json_items(ps) + seq![','] + profile_json(p),
{
    assert(seq![p][0] == p);
    if ps.len() > 0 {
        assert(ps.push(p).drop_last() =~= ps);
        assert(ps.push(p).last() == p);
    }
}

/// The table width is the widest name in bytes: no name is wider, and some
/// name is exactly that wide when there is any.
pub proof fn law_name_width_is_the_maximum(ps: Seq<ProfileView>)
    ensures
        forall|i: int| 0 <= i < ps.len() ==> encode_utf8((#[trigger] ps[i]).name).len() <= name_width(ps),
        ps.len() > 0 ==> exists|i: int|
            0 <= i < ps.len() && encode_utf8((#[trigger] ps[i]).name).len() == name_width(ps),
        ps.len() == 0 ==> name_width(ps) == 0,
    decreases ps.len(),
{
    if ps.len() > 0 {
        let front = ps.drop_last();
        law_name_width_is_the_maximum(front);
        assert forall|i: int| 0 <= i < ps.len() implies encode_utf8((#[trigger] ps[i]).name).len()
            <= name_width(ps) by {
            if i < front.len() {
                assert(ps[i] == front[i]);
            }
        }
        let n = encode_utf8(ps.last().name).len();
        if n > name_width(front) || front.len() == 0 {
            assert(encode_utf8(ps[ps.len() - 1].name).len() == name_width(ps));
        } else {
            let i = choose|i: int|
                0 <= i < front.len() && encode_utf8((#[trigger] front[i]).name).len() == name_width(
                    front,
                );
            assert(ps[i] == front[i]);
        }
    }
}

/// One line of the plain table, for a name no wider than `width` characters:
/// the name, spaces up to column `width`, two spaces, the account starting at
/// column `width + 2`, and a newline.
pub proof fn law_plain_line_layout(p: ProfileView, width: nat)
    requires
        p.name.len() <= width,
    ensures
        plain_line(p, width).len() == width + 2 + p.account.len() + 1,
        plain_line(p, width).take(p.name.len() as int) == p.name,
        forall|k: int|
            p.name.len() <= k < width + 2 ==> #[trigger] plain_line(p, width)[k] == ' ',
        plain_line(p, width).subrange(width + 2int, width + 2 + p.account.len() as int) == p.account,
        plain_line(p, width).last() == '\n',
{
    let l = plain_line(p, width);
    reveal_strlit("  ");
    assert(l.take(p.name.len() as int) =~= p.name);
    assert forall|k: int| p.name.len() <= k < width + 2 implies #[trigger] l[k] == ' ' by {
        if k < width {
            assert(l[k] == spaces(width - p.name.len())[k - p.name.len()]);
        } else {
            assert(l[k] == "  "@[k - width]);
        }
    }
    assert(l.subrange(width + 2int, width + 2 + p.account.len() as int) =~= p.account);
}

/// The plain table is one line per profile, in order.
pub proof fn law_plain_lines_are_one_per_profile(ps: Seq<ProfileView>, p: ProfileView, width: nat)
    ensures
        plain_lines(Seq::empty(), width) == Seq::<char>::empty(),
        plain_lines(ps.push(p), width) == plain_lines(ps, width) + plain_line(p, width),
{
    assert(ps.push(p).drop_last() =~= ps);
    assert(ps.push(p).last() == p);
}

/// The listing is the JSON document `{"profiles":[...]}` around the joined
/// objects, or the plain lines all padded to the widest name of the whole list.
pub proof fn law_render_list_layout(ps: Seq<ProfileView>)
    ensures
        render_list_spec(ps, true) == "{\"profiles\":["@ + json_items(ps) + "]}\n"@,
        render_list_spec(ps, false) == plain_lines(ps, name_width(ps)),
{
}

} // verus!
