//! Parsing of the line-based command protocol: one command per line, the
//! command word read case-insensitively, arguments split on single blanks.

use vstd::prelude::*;

use crate::game::SteerAction;

verus! {

/// A parsed protocol command.
#[derive(Debug, Clone)]
pub enum Command {
    /// Register the named player and queue it for matchmaking.
    Join(String),
    /// Render the named player's view of its match.
    Look(String),
    /// Steer the named player for its next step.
    Steer(String, SteerAction),
    /// Report the named player's match status.
    Status(String),
}

/// Where the token starting at `from` ends: the first blank at or after it,
/// or the end of the line.
pub open spec fn token_end(s: Seq<char>, from: int) -> int
    decreases s.len() - from,
{
    if from >= s.len() {
        s.len() as int
    } else if s[from] == ' ' {
        from
    } else {
        token_end(s, from + 1)
    }
}

/// The token matches the keyword, each character read in either case.
pub open spec fn kw_matches(t: Seq<char>, up: Seq<char>, low: Seq<char>) -> bool {
    t.len() == up.len() && forall|k: int| 0 <= k < t.len() ==> t[k] == up[k] || t[k] == low[k]
}

/// What the parser answers for one trimmed line. The first token picks the
/// command; JOIN takes the whole remainder as the name, LOOK and STATUS
/// take the second token, STEER takes the second token and a direction.
pub open spec fn parse_result(s: Seq<char>, r: Result<Command, String>) -> bool {
    let e0 = token_end(s, 0);
    let t0 = s.subrange(0, e0);
    let has1 = e0 < s.len();
    let rest1 = s.subrange(e0 + 1, s.len() as int);
    let e1 = token_end(s, e0 + 1);
    let t1 = s.subrange(e0 + 1, e1);
    let has2 = has1 && e1 < s.len();
    let t2 = s.subrange(e1 + 1, s.len() as int);
    if kw_matches(t0, "JOIN"@, "join"@) {
        if has1 {
            r matches Ok(c) && (c matches Command::Join(n) && n@ == rest1)
        } else {
            r matches Err(e) && e@ == "ERROR: JOIN requires a name"@
        }
    } else if kw_matches(t0, "LOOK"@, "look"@) {
        if has1 {
            r matches Ok(c) && (c matches Command::Look(n) && n@ == t1)
        } else {
            r matches Err(e) && e@ == "ERROR: LOOK requires player name"@
        }
    } else if kw_matches(t0, "STEER"@, "steer"@) {
        if !has2 {
            r matches Err(e) && e@ == "ERROR: STEER requires player name and direction"@
        } else if kw_matches(t2, "LEFT"@, "left"@) {
            r matches Ok(c) && (c matches Command::Steer(n, a) && n@ == t1 && a
                == SteerAction::Left)
        } else if kw_matches(t2, "RIGHT"@, "right"@) {
            r matches Ok(c) && (c matches Command::Steer(n, a) && n@ == t1 && a
                == SteerAction::Right)
        } else if kw_matches(t2, "STRAIGHT"@, "straight"@) {
            r matches Ok(c) && (c matches Command::Steer(n, a) && n@ == t1 && a
                == SteerAction::Straight)
        } else {
            r matches Err(e) && e@ == "ERROR: Direction must be left, right, or straight"@
        }
    } else if kw_matches(t0, "STATUS"@, "status"@) {
        if has1 {
            r matches Ok(c) && (c matches Command::Status(n) && n@ == t1)
        } else {
            r matches Err(e) && e@ == "ERROR: STATUS requires player name"@
        }
    } else {
        r matches Err(e) && e@ == "ERROR: Unknown command '"@ + t0 + "'"@
    }
}

/// Find the end of the token that starts at `from`.
fn find_token_end(s: &str, from: usize) -> (r: usize)
    requires
        from <= s@.len(),
    ensures
        r == token_end(s@, from as int),
        from <= r <= s@.len(),
        r < s@.len() ==> s@[r as int] == ' ',
    decreases s@.len() - from,
{
    let n = s.unicode_len();
    let mut i = from;
    while i < n
        invariant
            from <= i <= n,
            n == s@.len(),
            token_end(s@, from as int) == token_end(s@, i as int),
            forall|k: int| from <= k < i ==> s@[k] != ' ',
        decreases n - i,
    {
        if s.get_char(i) == ' ' {
            return i;
        }
        i += 1;
    }
    n
}

/// Compare a token against a keyword, character by character in either case.
fn keyword_eq(t: &str, up: &str, low: &str) -> (r: bool)
    requires
        up@.len() == low@.len(),
    ensures
        r == kw_matches(t@, up@, low@),
{
    let n = t.unicode_len();
    if n != up.unicode_len() {
        return false;
    }
    let mut i: usize = 0;
    while i < n
        invariant
            i <= n,
            n == t@.len() == up@.len() == low@.len(),
            forall|k: int| 0 <= k < i ==> t@[k] == up@[k] || t@[k] == low@[k],
        decreases n - i,
    {
        let c = t.get_char(i);
        if c != up.get_char(i) && c != low.get_char(i) {
            return false;
        }
        i += 1;
    }
    true
}

/// Parse one trimmed protocol line.
pub fn parse_command(line: &str) -> (r: Result<Command, String>)
    ensures
        parse_result(line@, r),
{
    proof {
        reveal_strlit("JOIN");
        reveal_strlit("join");
        reveal_strlit("LOOK");
        reveal_strlit("look");
        reveal_strlit("STEER");
        reveal_strlit("steer");
        reveal_strlit("STATUS");
        reveal_strlit("status");
        reveal_strlit("LEFT");
        reveal_strlit("left");
        reveal_strlit("RIGHT");
        reveal_strlit("right");
        reveal_strlit("STRAIGHT");
        reveal_strlit("straight");
        reveal_strlit("ERROR: JOIN requires a name");
        reveal_strlit("ERROR: LOOK requires player name");
        reveal_strlit("ERROR: STEER requires player name and direction");
        reveal_strlit("ERROR: Direction must be left, right, or straight");
        reveal_strlit("ERROR: STATUS requires player name");
        reveal_strlit("ERROR: Unknown command '");
        reveal_strlit("'");
    }
    let n = line.unicode_len();
    let e0 = find_token_end(line, 0);
    let t0 = line.substring_char(0, e0);
    let has1 = e0 < n;
    if keyword_eq(t0, "JOIN", "join") {
        if has1 {
            let name = line.substring_char(e0 + 1, n);
            Ok(Command::Join(name.to_owned()))
        } else {
            Err("ERROR: JOIN requires a name".to_owned())
        }
    } else if keyword_eq(t0, "LOOK", "look") {
        if has1 {
            let e1 = find_token_end(line, e0 + 1);
            let name = line.substring_char(e0 + 1, e1);
            Ok(Command::Look(name.to_owned()))
        } else {
            Err("ERROR: LOOK requires player name".to_owned())
        }
    } else if keyword_eq(t0, "STEER", "steer") {
        if !has1 {
            return Err("ERROR: STEER requires player name and direction".to_owned());
        }
        let e1 = find_token_end(line, e0 + 1);
        if !(e1 < n) {
            return Err("ERROR: STEER requires player name and direction".to_owned());
        }
        let name = line.substring_char(e0 + 1, e1);
        let dir = line.substring_char(e1 + 1, n);
        if keyword_eq(dir, "LEFT", "left") {
            Ok(Command::Steer(name.to_owned(), SteerAction::Left))
        } else if keyword_eq(dir, "RIGHT", "right") {
            Ok(Command::Steer(name.to_owned(), SteerAction::Right))
        } else if keyword_eq(dir, "STRAIGHT", "straight") {
            Ok(Command::Steer(name.to_owned(), SteerAction::Straight))
        } else {
            Err("ERROR: Direction must be left, right, or straight".to_owned())
        }
    } else if keyword_eq(t0, "STATUS", "status") {
        if has1 {
            let e1 = find_token_end(line, e0 + 1);
            let name = line.substring_char(e0 + 1, e1);
            Ok(Command::Status(name.to_owned()))
        } else {
            Err("ERROR: STATUS requires player name".to_owned())
        }
    } else {
        let mut e = String::from_str("ERROR: Unknown command '");
        e.append(t0);
        e.append("'");
        Err(e)
    }
}

} // verus!
