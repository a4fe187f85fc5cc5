//! Application configuration and the parsing of the configured user list.

use vstd::prelude::*;
use crate::models::InternalUser;
use crate::text::{split_on, split_str, lemma_filter_push};

verus! {

/// Run-time configuration of the catalog service.
#[derive(Clone)]
pub struct AppConfig {
    pub port: u16,
    pub use_proxy: bool,
    pub abs_url: String,
    /// The raw configured user list: comma-separated entries of the form
    /// `name:key:password`.
    pub opds_users: String,
    pub internal_users: Vec<InternalUser>,
    pub show_audiobooks: bool,
    pub show_char_cards: bool,
    pub opds_no_auth: bool,
    pub abs_noauth_username: String,
    pub abs_noauth_password: String,
    pub opds_page_size: usize,
}

/// The default service port.
pub fn default_port() -> (r: u16)
    ensures
        r == 3010,
{
    3010
}

/// Whether the binary-asset proxy is enabled by default.
pub fn default_use_proxy() -> (r: bool)
    ensures
        r == false,
{
    false
}

/// The default upstream base URL.
pub fn default_abs_url() -> (r: String)
    ensures
        r@ == "http://localhost:3000"@,
{
    String::from_str("http://localhost:3000")
}

/// The default for the boolean feature switches.
pub fn default_false() -> (r: bool)
    ensures
        r == false,
{
    false
}

/// The default number of items per catalog page.
pub fn default_page_size() -> (r: usize)
    ensures
        r == 20,
{
    20
}

/// A configured user entry is kept when it is non-empty, has at least three
/// colon-separated fields, and its second field (the API key) is non-empty.
pub open spec fn valid_user_segment(seg: Seq<char>) -> bool {
    let ps = split_on(seg, ':');
    seg.len() > 0 && ps.len() >= 3 && ps[1].len() > 0
}

/// The user parsed from a kept entry: name, API key, password.
pub open spec fn user_of_segment(seg: Seq<char>) -> (Seq<char>, Seq<char>, Option<Seq<char>>) {
    let ps = split_on(seg, ':');
    (ps[0], ps[1], Some(ps[2]))
}

/// The model of one parsed user: its name, key and password as character
/// sequences.
pub open spec fn user_model(u: InternalUser) -> (Seq<char>, Seq<char>, Option<Seq<char>>) {
    (
        u.name@,
        u.api_key@,
        match u.password {
            Some(p) => Some(p@),
            None => None,
        },
    )
}

/// The users parsed from a raw comma-separated configuration string.
pub open spec fn parsed_users(s: Seq<char>) -> Seq<(Seq<char>, Seq<char>, Option<Seq<char>>)> {
    split_on(s, ',').filter(|seg: Seq<char>| valid_user_segment(seg)).map_values(
        |seg: Seq<char>| user_of_segment(seg),
    )
}

impl AppConfig {
    /// Fills `internal_users` from the raw `opds_users` string: entries are
    /// comma-separated `name:key:password` triples; empty entries, entries
    /// with fewer than three fields and entries with an empty key are
    /// dropped. No other field changes.
    pub fn parse_users(&mut self)
        ensures
            final(self).internal_users@.map_values(|u: InternalUser| user_model(u))
                == parsed_users(old(self).opds_users@),
            final(self).port == old(self).port,
            final(self).use_proxy == old(self).use_proxy,
            final(self).abs_url == old(self).abs_url,
            final(self).opds_users == old(self).opds_users,
            final(self).show_audiobooks == old(self).show_audiobooks,
            final(self).show_char_cards == old(self).show_char_cards,
            final(self).opds_no_auth == old(self).opds_no_auth,
            final(self).abs_noauth_username == old(self).abs_noauth_username,
            final(self).abs_noauth_password == old(self).abs_noauth_password,
            final(self).opds_page_size == old(self).opds_page_size,
    {
        let segs = split_str(self.opds_users.as_str(), ',');
        let ghost segs_dv = segs.deep_view();
        let mut users: Vec<InternalUser> = Vec::new();
        let mut i: usize = 0;
        proof {
            reveal(Seq::filter);
            assert(segs_dv.take(0) =~= Seq::<Seq<char>>::empty());
            assert(users@.map_values(|u: InternalUser| user_model(u)) =~= Seq::<
                (Seq<char>, Seq<char>, Option<Seq<char>>),
            >::empty());
            assert(segs_dv.take(0).filter(|seg: Seq<char>| valid_user_segment(seg)).map_values(
                |seg: Seq<char>| user_of_segment(seg),
            ) =~= Seq::<(Seq<char>, Seq<char>, Option<Seq<char>>)>::empty());
        }
        while i < segs.len()
            invariant
                0 <= i <= segs@.len(),
                segs_dv == segs.deep_view(),
                users@.map_values(|u: InternalUser| user_model(u)) == segs_dv.take(
                    i as int,
                ).filter(|seg: Seq<char>| valid_user_segment(seg)).map_values(
                    |seg: Seq<char>| user_of_segment(seg),
                ),
            decreases segs@.len() - i,
        {
            let seg = &segs[i];
            let ghost seg_view = segs_dv[i as int];
            proof {
                assert(seg_view == seg@);
                assert(segs_dv.take(i + 1) == segs_dv.take(i as int).push(seg_view));
                lemma_filter_push(
                    segs_dv.take(i as int),
                    seg_view,
                    |seg: Seq<char>| valid_user_segment(seg),
                );
            }
            if seg.as_str().unicode_len() > 0 {
                let parts = split_str(seg.as_str(), ':');
                proof {
                    assert(parts.deep_view() == split_on(seg_view, ':'));
                    assert(forall|k: int|
                        0 <= k < parts@.len() ==> parts@[k]@ == parts.deep_view()[k]);
                }
                if parts.len() >= 3 && parts[1].as_str().unicode_len() > 0 {
                    let u = InternalUser {
                        name: parts[0].clone(),
                        api_key: parts[1].clone(),
                        password: Some(parts[2].clone()),
                    };
                    proof {
                        assert(valid_user_segment(seg_view));
                        assert(user_model(u) == user_of_segment(seg_view));
                    }
                    users.push(u);
                    proof {
                        let f = |seg: Seq<char>| valid_user_segment(seg);
                        let g = |seg: Seq<char>| user_of_segment(seg);
                        let m = |u: InternalUser| user_model(u);
                        assert(users@.map_values(m) =~= users@.drop_last().map_values(m).push(
                            user_model(u),
                        ));
                        assert(segs_dv.take(i as int).filter(f).push(seg_view).map_values(g)
                            =~= segs_dv.take(i as int).filter(f).map_values(g).push(
                            user_of_segment(seg_view),
                        ));
                    }
                } else {
                    proof {
                        assert(!valid_user_segment(seg_view));
                    }
                }
            } else {
                proof {
                    assert(!valid_user_segment(seg_view));
                }
            }
            i = i + 1;
        }
        proof {
            assert(segs_dv.take(segs_dv.len() as int) == segs_dv);
        }
        self.internal_users = users;
    }
}

} // verus!
