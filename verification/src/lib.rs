//! Bladedance core library: the string, matching, parsing and bookkeeping
//! logic of the IRC server, with its behaviour stated and proved.

pub mod hashcomp;
pub mod wildcard;
pub mod text;
pub mod clientprotocol;
pub mod configreader;
pub mod helperfuncs;
pub mod colors;
pub mod server;
pub mod extensible;
pub mod cmd_admin;
pub mod modulemanager;
pub mod mode;
pub mod traits;
pub mod account;
pub mod stringutils;
pub mod configtoml;
pub mod m_shun;
pub mod inspircd;
pub mod serverconfig;
pub mod logging;
pub mod xline;
pub mod modules;
pub mod snomasks;
pub mod users;
pub mod cidr;
pub mod bancache;
pub mod timer;
pub mod usermanager;
pub mod socketengine;
pub mod socketengine_poll;
pub mod socketengine_select;
pub mod dynamic;
pub mod bladedance;
