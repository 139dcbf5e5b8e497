//! The ADMIN command: what the server tells a user who asks who runs it.

use vstd::prelude::*;

verus! {

/// The administrative details that the ADMIN command reports.
pub struct CommandAdmin {
    adminname: String,
    admindesc: String,
    adminemail: String,
}

/// The name, description and email address of the administrator.
pub struct AdminInfo {
    pub name: Seq<char>,
    pub description: Seq<char>,
    pub email: Seq<char>,
}

/// The reply lines of the ADMIN command: for an operator, the numerics
/// 256, 257 (with the admin name), 258 (with the admin description) and
/// 259 (with the admin email address); for anyone else, a single 256 line
/// refusing the request.
pub open spec fn admin_reply(info: AdminInfo, user_level: i32, server_name: Seq<char>) -> Seq<
    Seq<char>,
> {
    if user_level > 0 {
        seq![
            "256 "@ + server_name + " :Administrative info"@,
            "257 "@ + server_name + " :"@ + info.name,
            "258 "@ + server_name + " :"@ + info.description,
            "259 "@ + server_name + " :"@ + info.email,
        ]
    } else {
        seq!["256 "@ + server_name + " :User level of above 0 is required to execute this command"@]
    }
}

impl CommandAdmin {
    /// The administrative details held.
    pub closed spec fn view(&self) -> AdminInfo {
        AdminInfo { name: self.adminname@, description: self.admindesc@, email: self.adminemail@ }
    }

    /// A command with empty details.
    pub fn new() -> (r: Self)
        ensures
            r.view().name == Seq::<char>::empty(),
            r.view().description == Seq::<char>::empty(),
            r.view().email == Seq::<char>::empty(),
    {
        CommandAdmin { adminname: String::new(), admindesc: String::new(), adminemail: String::new() }
    }

    /// Sets the admin name.
    pub fn set_admin_name(&mut self, name: &str)
        ensures
            final(self).view().name == name@,
            final(self).view().description == old(self).view().description,
            final(self).view().email == old(self).view().email,
    {
        self.adminname = name.to_owned();
    }

    /// Sets the admin description.
    pub fn set_admin_description(&mut self, desc: &str)
        ensures
            final(self).view().description == desc@,
            final(self).view().name == old(self).view().name,
            final(self).view().email == old(self).view().email,
    {
        self.admindesc = desc.to_owned();
    }

    /// Sets the admin email address.
    pub fn set_admin_email(&mut self, email: &str)
        ensures
            final(self).view().email == email@,
            final(self).view().name == old(self).view().name,
            final(self).view().description == old(self).view().description,
    {
        self.adminemail = email.to_owned();
    }

    /// Answers the ADMIN command for a user of the given level (above 0 for
    /// an operator): always handled, with the reply lines.
    pub fn handle_admin(&self, user_level: i32, server_name: &str) -> (r: (bool, Vec<String>))
        ensures
            r.0,
            r.1@.len() == admin_reply(self.view(), user_level, server_name@).len(),
            forall|i: int|
                0 <= i < r.1@.len() ==> #[trigger] r.1@[i]@ == admin_reply(
                    self.view(),
                    user_level,
                    server_name@,
                )[i],
    {
        let mut lines: Vec<String> = Vec::new();
        if user_level > 0 {
            let mut a = String::new();
            a.append("256 ");
            a.append(server_name);
            a.append(" :Administrative info");
            let mut b = String::new();
            b.append("257 ");
            b.append(server_name);
            b.append(" :");
            b.append(self.adminname.as_str());
            let mut c = String::new();
            c.append("258 ");
            c.append(server_name);
            c.append(" :");
            c.append(self.admindesc.as_str());
            let mut d = String::new();
            d.append("259 ");
            d.append(server_name);
            d.append(" :");
            d.append(self.adminemail.as_str());
            lines.push(a);
            lines.push(b);
            lines.push(c);
            lines.push(d);
        } else {
            let mut a = String::new();
            a.append("256 ");
            a.append(server_name);
            a.append(" :User level of above 0 is required to execute this command");
            lines.push(a);
        }
        proof {
            assert(Seq::<char>::empty() + "256 "@ =~= "256 "@);
            assert(Seq::<char>::empty() + "257 "@ =~= "257 "@);
            assert(Seq::<char>::empty() + "258 "@ =~= "258 "@);
            assert(Seq::<char>::empty() + "259 "@ =~= "259 "@);
        }
        (true, lines)
    }

    /// The reply of the ADMIN command as one text, its lines joined by
    /// newlines.
    pub fn reply_text(&self, user_level: i32, server_name: &str) -> (r: String)
        ensures
            r@ == joined_lines(admin_reply(self.view(), user_level, server_name@)),
    {
        let (_, lines) = self.handle_admin(user_level, server_name);
        let ghost ls = admin_reply(self.view(), user_level, server_name@);
        let mut text = String::new();
        let mut i: usize = 0;
        while i < lines.len()
            invariant
                i <= lines@.len(),
                lines@.len() == ls.len(),
                forall|k: int| 0 <= k < lines@.len() ==> #[trigger] lines@[k]@ == ls[k],
                text@ == joined_lines(ls.take(i as int)),
            decreases lines.len() - i,
        {
            proof {
                assert(ls.take(i + 1).drop_last() =~= ls.take(i as int));
            }
            if i > 0 {
                text.append("\n");
            }
            text.append(lines[i].as_str());
            proof {
                assert(ls.take(i + 1).last() == ls[i as int]);
                if i == 0 {
                    assert(Seq::<char>::empty() + ls[0] =~= ls[0]);
                }
            }
            i = i + 1;
        }
        proof {
            assert(ls.take(lines@.len() as int) =~= ls);
        }
        text
    }
}

/// Lines joined into one text, a newline between each two.
pub open spec fn joined_lines(ls: Seq<Seq<char>>) -> Seq<char>
    decreases ls.len(),
{
    if ls.len() == 0 {
        Seq::empty()
    } else if ls.len() == 1 {
        ls[0]
    } else {
        joined_lines(ls.drop_last()) + "\n"@ + ls.last()
    }
}

} // verus!
