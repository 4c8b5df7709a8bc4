//! The scripts that show a notification where the desktop takes no plain texts.

use vstd::prelude::*;

use crate::text::{chars_of, concat};

verus! {

/// A character inside single quotes of a shell that doubles quotes.
pub open spec fn doubled_char(c: char) -> Seq<char> {
    if c == '\'' {
        seq!['\'', '\'']
    } else {
        seq![c]
    }
}

/// A text inside single quotes of a shell that doubles quotes.
pub open spec fn doubled(s: Seq<char>) -> Seq<char>
    decreases s.len(),
{
    if s.len() == 0 {
        seq![]
    } else {
        doubled(s.drop_last()) + doubled_char(s.last())
    }
}

/// A character inside double quotes of a script that escapes with backslashes.
pub open spec fn escaped_char(c: char) -> Seq<char> {
    if c == '\\' {
        seq!['\\', '\\']
    } else if c == '"' {
        seq!['\\', '"']
    } else {
        seq![c]
    }
}

/// A text inside double quotes of a script that escapes with backslashes.
pub open spec fn escaped(s: Seq<char>) -> Seq<char>
    decreases s.len(),
{
    if s.len() == 0 {
        seq![]
    } else {
        escaped(s.drop_last()) + escaped_char(s.last())
    }
}

/// Different texts stay different inside double quotes.
pub proof fn escaping_keeps_texts_apart(a: Seq<char>, b: Seq<char>)
    requires
        escaped(a) == escaped(b),
    ensures
        a == b,
    decreases a.len(),
{
    let e = escaped(a);
    if a.len() > 0 && b.len() > 0 {
        let pa = escaped_char(a.last());
        let pb = escaped_char(b.last());
        let ha = escaped(a.drop_last());
        let hb = escaped(b.drop_last());
        assert(e == ha + pa && e == hb + pb);
        assert(e.last() == pa.last());
        assert(e.last() == pb.last());
        assert(pa == pb && a.last() == b.last());
        assert(ha =~= e.take(e.len() - pa.len()));
        assert(hb =~= e.take(e.len() - pb.len()));
        escaping_keeps_texts_apart(a.drop_last(), b.drop_last());
        assert(a =~= a.drop_last().push(a.last()));
        assert(b =~= b.drop_last().push(b.last()));
    } else {
        assert(a.len() > 0 ==> escaped(a) == escaped(a.drop_last()) + escaped_char(a.last()));
        assert(b.len() > 0 ==> escaped(b) == escaped(b.drop_last()) + escaped_char(b.last()));
        assert(escaped(a).len() == 0 ==> a.len() == 0);
        assert(escaped(b).len() == 0 ==> b.len() == 0);
        assert(a =~= b);
    }
}

/// A quote inside double quotes always follows a backslash, so it does not end the text.
pub proof fn escaped_quotes_do_not_end_the_text(s: Seq<char>, i: int)
    requires
        0 <= i < escaped(s).len(),
        escaped(s)[i] == '"',
    ensures
        i > 0,
        escaped(s)[i - 1] == '\\',
    decreases s.len(),
{
    let head = escaped(s.drop_last());
    if i < head.len() {
        escaped_quotes_do_not_end_the_text(s.drop_last(), i);
    } else {
        assert(escaped(s)[i] == escaped_char(s.last())[i - head.len()]);
    }
}

fn double_quotes(s: &str) -> (r: String)
    ensures
        r@ == doubled(s@),
{
    let cs = chars_of(s);
    let mut out = String::new();
    let mut i: usize = 0;
    assert(s@.take(0) =~= Seq::<char>::empty());
    while i < cs.len()
        invariant
            i <= cs@.len(),
            cs@ == s@,
            out@ == doubled(s@.take(i as int)),
        decreases cs@.len() - i,
    {
        let c = cs[i];
        proof {
            let now = s@.take(i + 1);
            assert(now.drop_last() =~= s@.take(i as int));
            assert(now.last() == c);
        }
        if c == '\'' {
            out.push('\'');
        }
        out.push(c);
        assert(out@ =~= doubled(s@.take(i + 1)));
        i = i + 1;
    }
    assert(s@.take(i as int) =~= s@);
    out
}

fn escape_quotes(s: &str) -> (r: String)
    ensures
        r@ == escaped(s@),
{
    let cs = chars_of(s);
    let mut out = String::new();
    let mut i: usize = 0;
    assert(s@.take(0) =~= Seq::<char>::empty());
    while i < cs.len()
        invariant
            i <= cs@.len(),
            cs@ == s@,
            out@ == escaped(s@.take(i as int)),
        decreases cs@.len() - i,
    {
        let c = cs[i];
        proof {
            let now = s@.take(i + 1);
            assert(now.drop_last() =~= s@.take(i as int));
            assert(now.last() == c);
        }
        if c == '\\' || c == '"' {
            out.push('\\');
        }
        out.push(c);
        assert(out@ =~= escaped(s@.take(i + 1)));
        i = i + 1;
    }
    assert(s@.take(i as int) =~= s@);
    out
}

/// The PowerShell script that shows a balloon.
pub fn balloon_script(title: &str, body: &str) -> (r: String)
    ensures
        r@ == "[void] [System.Reflection.Assembly]::LoadWithPartialName('System.Windows.Forms'); $n = New-Object System.Windows.Forms.NotifyIcon; $n.Icon = [System.Drawing.SystemIcons]::Information; $n.Visible = $true; $n.ShowBalloonTip(5000, '"@
            + doubled(title@) + "', '"@ + doubled(body@)
            + "', 'Info'); Start-Sleep -Seconds 6; $n.Dispose()"@,
{
    let a = concat(
        "[void] [System.Reflection.Assembly]::LoadWithPartialName('System.Windows.Forms'); $n = New-Object System.Windows.Forms.NotifyIcon; $n.Icon = [System.Drawing.SystemIcons]::Information; $n.Visible = $true; $n.ShowBalloonTip(5000, '",
        double_quotes(title).as_str(),
    );
    let b = concat(a.as_str(), "', '");
    let c = concat(b.as_str(), double_quotes(body).as_str());
    concat(c.as_str(), "', 'Info'); Start-Sleep -Seconds 6; $n.Dispose()")
}

/// The AppleScript that shows a notification.
pub fn notification_script(title: &str, body: &str) -> (r: String)
    ensures
        r@ == "display notification \""@ + escaped(body@) + "\" with title \""@ + escaped(title@)
            + "\""@,
{
    let a = concat("display notification \"", escape_quotes(body).as_str());
    let b = concat(a.as_str(), "\" with title \"");
    let c = concat(b.as_str(), escape_quotes(title).as_str());
    concat(c.as_str(), "\"")
}

/// Inside single quotes a quote is doubled, and every other character stands for itself, in
/// the order of the text.
pub proof fn only_quotes_are_doubled(s: Seq<char>, c: char)
    ensures
        doubled(seq![]).len() == 0,
        c == '\'' ==> doubled(s.push(c)) == doubled(s).push('\'').push('\''),
        c != '\'' ==> doubled(s.push(c)) == doubled(s).push(c),
{
    assert(s.push(c).drop_last() =~= s);
    assert(doubled(s) + seq!['\'', '\''] =~= doubled(s).push('\'').push('\''));
    assert(doubled(s) + seq![c] =~= doubled(s).push(c));
}

/// Inside double quotes a quote and a backslash follow a backslash, and every other character
/// stands for itself, in the order of the text.
pub proof fn only_quotes_and_backslashes_are_escaped(s: Seq<char>, c: char)
    ensures
        escaped(seq![]).len() == 0,
        c == '"' || c == '\\' ==> escaped(s.push(c)) == escaped(s).push('\\').push(c),
        c != '"' && c != '\\' ==> escaped(s.push(c)) == escaped(s).push(c),
{
    assert(s.push(c).drop_last() =~= s);
    assert(escaped(s) + seq!['\\', c] =~= escaped(s).push('\\').push(c));
    assert(escaped(s) + seq![c] =~= escaped(s).push(c));
}

} // verus!
