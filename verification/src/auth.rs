//! Bearer-token check for the administrative requests.
use vstd::prelude::*;

use crate::error::AppError;
use crate::text::chars_of;

verus! {

/// The scheme prefix of a bearer credential, `Bearer ` with one space.
pub open spec fn bearer_prefix() -> Seq<char> {
    seq!['B', 'e', 'a', 'r', 'e', 'r', ' ']
}

/// The token that an `Authorization` value carries: what follows the
/// bearer prefix, or nothing when the value does not start with it.
pub open spec fn bearer_token(value: Seq<char>) -> Option<Seq<char>> {
    if value.len() >= bearer_prefix().len() && value.take(bearer_prefix().len() as int)
        == bearer_prefix() {
        Some(value.skip(bearer_prefix().len() as int))
    } else {
        None
    }
}

/// Admits a request whose `Authorization` value (absent, or not readable as
/// text, when `None`) carries exactly the administrator token; any other
/// request is unauthorized.
pub fn require_admin(authorization: Option<&str>, admin_token: &str) -> (r: Result<(), AppError>)
    ensures
        r is Ok <==> (authorization matches Some(v) && bearer_token(v@) == Some(admin_token@)),
        r is Err ==> r == Err::<(), AppError>(AppError::Unauthorized),
{
    let value = match authorization {
        Some(v) => v,
        None => return Err(AppError::Unauthorized),
    };
    let cs = chars_of(value);
    let token = chars_of(admin_token);
    let prefix: [char; 7] = ['B', 'e', 'a', 'r', 'e', 'r', ' '];
    if cs.len() < 7 {
        return Err(AppError::Unauthorized);
    }
    let mut i: usize = 0;
    while i < 7
        invariant
            i <= 7,
            authorization == Some(value),
            cs@ == value@,
            cs.len() >= 7,
            prefix@ == bearer_prefix(),
            forall|k: int| 0 <= k < i ==> cs@[k] == bearer_prefix()[k],
        decreases 7 - i,
    {
        if (cs[i] as u32) != (prefix[i] as u32) {
            proof {
                vstd::utf8::char_u32_cast(cs@[i as int], cs@[i as int] as u32);
                vstd::utf8::char_u32_cast(prefix@[i as int], prefix@[i as int] as u32);
                assert(value@.take(7)[i as int] != bearer_prefix()[i as int]);
                assert(value@.take(7) != bearer_prefix());
                assert(bearer_token(value@) is None);
            }
            return Err(AppError::Unauthorized);
        }
        proof {
            vstd::utf8::char_u32_cast(cs@[i as int], cs@[i as int] as u32);
            vstd::utf8::char_u32_cast(prefix@[i as int], prefix@[i as int] as u32);
        }
        i = i + 1;
    }
    assert(value@.take(7) =~= bearer_prefix());
    if cs.len() - 7 != token.len() {
        proof {
            assert(value@.skip(7).len() != admin_token@.len());
        }
        return Err(AppError::Unauthorized);
    }
    let mut j: usize = 0;
    while j < token.len()
        invariant
            j <= token.len(),
            authorization == Some(value),
            value@.take(7) == bearer_prefix(),
            cs@ == value@,
            token@ == admin_token@,
            cs.len() == token.len() + 7,
            forall|k: int| 0 <= k < j ==> cs@[k + 7] == token@[k],
        decreases token.len() - j,
    {
        if (cs[j + 7] as u32) != (token[j] as u32) {
            proof {
                vstd::utf8::char_u32_cast(cs@[j + 7], cs@[j + 7] as u32);
                vstd::utf8::char_u32_cast(token@[j as int], token@[j as int] as u32);
                assert(value@.skip(7)[j as int] != admin_token@[j as int]);
                assert(value@.skip(7) != admin_token@);
            }
            return Err(AppError::Unauthorized);
        }
        proof {
            vstd::utf8::char_u32_cast(cs@[j + 7], cs@[j + 7] as u32);
            vstd::utf8::char_u32_cast(token@[j as int], token@[j as int] as u32);
        }
        j = j + 1;
    }
    assert(value@.skip(7) =~= admin_token@);
    Ok(())
}

} // verus!
