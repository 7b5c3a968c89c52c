//! What a socket worker decides outside of its connections.

use vstd::prelude::*;

use crate::address::{SocketAddr, SocketAddrView};
use crate::config::Config;
use crate::connection::{unit_result, ConnectionError, ConnectionErrorView};
use crate::error::ErrorChain;

verus! {

/// How a listening socket is set up.
#[derive(Clone, Copy, Debug, PartialEq, Eq)]
pub struct ListenerOptions {
    pub address: SocketAddr,
    /// Do not accept IPv4 connections on an IPv6 socket.
    pub only_ipv6: bool,
    pub backlog: i32,
}

/// What [`ListenerOptions`] stand for.
pub struct ListenerOptionsView {
    pub address: SocketAddrView,
    pub only_ipv6: bool,
    pub backlog: i32,
}

impl View for ListenerOptions {
    type V = ListenerOptionsView;

    open spec fn view(&self) -> ListenerOptionsView {
        ListenerOptionsView {
            address: self.address@,
            only_ipv6: self.only_ipv6,
            backlog: self.backlog,
        }
    }
}

/// How the listening socket for an address is set up.
pub open spec fn options_for(config: Config, address: SocketAddrView) -> ListenerOptionsView {
    ListenerOptionsView {
        address,
        only_ipv6: address is V6 && config.network.set_only_ipv6,
        backlog: config.network.tcp_backlog,
    }
}

/// How the listening socket for `address` is set up.
pub fn listener_options(config: &Config, address: SocketAddr) -> (options: ListenerOptions)
    ensures
        options@ == options_for(*config, address@),
{
    ListenerOptions {
        address,
        only_ipv6: !address.is_ipv4() && config.network.set_only_ipv6,
        backlog: config.network.tcp_backlog,
    }
}

/// The listening sockets of a socket worker, in the order in which they are
/// created.
#[derive(Debug)]
pub struct ListenerPlan {
    pub listeners: Vec<ListenerOptions>,
    /// Why not all of the sockets can be created, if so.
    pub error: Option<ErrorChain>,
}

/// What a list of options stands for.
pub open spec fn options_views(listeners: Seq<ListenerOptions>) -> Seq<ListenerOptionsView> {
    listeners.map_values(|options: ListenerOptions| options@)
}

/// The sockets that are wanted: one for each IP version in use.
pub open spec fn wanted_listeners(config: Config) -> Seq<ListenerOptionsView> {
    let ipv4 = if config.network.use_ipv4 {
        seq![options_for(config, config.network.address_ipv4@)]
    } else {
        Seq::empty()
    };
    let ipv6 = if config.network.use_ipv6 {
        seq![options_for(config, config.network.address_ipv6@)]
    } else {
        Seq::empty()
    };
    ipv4 + ipv6
}

/// The listening sockets for which there are privilege droppers, and the error that
/// says that there are not enough of them, if so.
pub open spec fn planned_listeners(config: Config, priv_droppers: nat) -> (
    Seq<ListenerOptionsView>,
    Option<Seq<Seq<char>>>,
) {
    let wanted = wanted_listeners(config);
    if wanted.len() <= priv_droppers {
        (wanted, None)
    } else {
        (wanted.take(priv_droppers as int), Some(seq!["no enough priv droppers"@]))
    }
}

/// Plans the listening sockets. Each of them takes up one of `priv_droppers`; it
/// is an error to have fewer than there are sockets.
pub fn plan_listeners(config: &Config, priv_droppers: usize) -> (plan: ListenerPlan)
    ensures
        (
            options_views(plan.listeners@),
            match plan.error {
                Some(chain) => Some(chain@),
                None => None,
            },
        ) == planned_listeners(*config, priv_droppers as nat),
        ({
            let wanted = wanted_listeners(*config);
            if wanted.len() <= priv_droppers {
                &&& options_views(plan.listeners@) == wanted
                &&& plan.error is None
            } else {
                &&& options_views(plan.listeners@) == wanted.take(priv_droppers as int)
                &&& plan.error matches Some(chain)
                &&& chain@ == seq!["no enough priv droppers"@]
            }
        }),
{
    let mut listeners: Vec<ListenerOptions> = Vec::new();
    let mut left: usize = priv_droppers;
    let ghost wanted = wanted_listeners(*config);
    assert(options_views(listeners@) == Seq::<ListenerOptionsView>::empty());
    if config.network.use_ipv4 {
        if left == 0 {
            assert(options_views(listeners@) == wanted.take(priv_droppers as int));
            return ListenerPlan {
                listeners,
                error: Some(ErrorChain::new("no enough priv droppers")),
            };
        }
        left = left - 1;
        listeners.push(listener_options(config, config.network.address_ipv4));
        assert(options_views(listeners@) == seq![
            options_for(*config, config.network.address_ipv4@),
        ]);
    }
    let ghost before = options_views(listeners@);
    if config.network.use_ipv6 {
        if left == 0 {
            assert(options_views(listeners@) == wanted.take(priv_droppers as int));
            return ListenerPlan {
                listeners,
                error: Some(ErrorChain::new("no enough priv droppers")),
            };
        }
        listeners.push(listener_options(config, config.network.address_ipv6));
        assert(options_views(listeners@) == before.push(
            options_for(*config, config.network.address_ipv6@),
        ));
    }
    assert(options_views(listeners@) == wanted);
    ListenerPlan { listeners, error: None }
}

/// How much attention a message in the log asks for.
#[derive(Clone, Copy, Debug, PartialEq, Eq, Structural)]
pub enum LogLevel {
    Error,
    Info,
    Debug,
}

/// The level at which the end of a connection is logged. A connection that ends
/// without an error is not logged.
pub open spec fn level_of_close(result: Result<(), ConnectionErrorView>) -> Option<LogLevel> {
    match result {
        Ok(_) => None,
        Err(ConnectionErrorView::ResponseBufferWrite(_)) => Some(LogLevel::Error),
        Err(ConnectionErrorView::ResponseBufferFull) => Some(LogLevel::Error),
        Err(ConnectionErrorView::ResponseReceiverClosed) => Some(LogLevel::Error),
        Err(ConnectionErrorView::InternalResponseTimeout) => Some(LogLevel::Error),
        Err(ConnectionErrorView::UnexpectedInternalResponse) => Some(LogLevel::Error),
        Err(ConnectionErrorView::RequestBufferFull) => Some(LogLevel::Info),
        Err(ConnectionErrorView::RequestReadTimeout) => Some(LogLevel::Info),
        Err(_) => Some(LogLevel::Debug),
    }
}

/// The level at which the end of a connection is logged, if it is.
pub fn close_log_level(result: &Result<(), ConnectionError>) -> (level: Option<LogLevel>)
    ensures
        level == level_of_close(unit_result(*result)),
{
    match result {
        Ok(()) => None,
        Err(ConnectionError::ResponseBufferWrite(_))
        | Err(ConnectionError::ResponseBufferFull)
        | Err(ConnectionError::ResponseReceiverClosed)
        | Err(ConnectionError::InternalResponseTimeout)
        | Err(ConnectionError::UnexpectedInternalResponse) => Some(LogLevel::Error),
        Err(ConnectionError::RequestBufferFull)
        | Err(ConnectionError::RequestReadTimeout) => Some(LogLevel::Info),
        Err(_) => Some(LogLevel::Debug),
    }
}

/// The end of a connection is logged as an error where the server is at fault, as
/// worth knowing where a request was too large or too slow, and otherwise only for
/// those who look for it. An end without an error is not logged.
pub proof fn log_level_tells_whose_fault_it_is(result: Result<(), ConnectionError>)
    ensures
        level_of_close(unit_result(result)) is None <==> result is Ok,
        level_of_close(unit_result(result)) == Some(LogLevel::Error) <==> (result matches Err(err)
            && (err is ResponseBufferWrite || err is ResponseBufferFull
            || err is ResponseReceiverClosed || err is InternalResponseTimeout
            || err is UnexpectedInternalResponse)),
        level_of_close(unit_result(result)) == Some(LogLevel::Info) <==> (result matches Err(err)
            && (err is RequestBufferFull || err is RequestReadTimeout)),
        level_of_close(unit_result(result)) == Some(LogLevel::Debug) <==> (result matches Err(err)
            && (err is Inactive || err is NoSocketPeerAddr || err is RequestParse || err is PeerClosed
            || err is ResponseSenderClosed || err is ScrapeChannelError || err is Other)),
{
}

/// There is one listening socket for each IP version in use, on the address that is
/// configured for it and with the configured backlog, that for IPv4 first. IPv4
/// connections are kept off a socket exactly where it is an IPv6 socket and this is
/// configured.
pub proof fn one_socket_for_each_ip_version(config: Config)
    ensures
        ({
            let wanted = wanted_listeners(config);
            let use_ipv4 = config.network.use_ipv4;
            let use_ipv6 = config.network.use_ipv6;
            &&& wanted.len() == (if use_ipv4 { 1int } else { 0 }) + (if use_ipv6 { 1int } else { 0 })
            &&& use_ipv4 ==> wanted[0].address == config.network.address_ipv4@
            &&& use_ipv6 ==> wanted.last().address == config.network.address_ipv6@
            &&& forall|i: int|
                0 <= i < wanted.len() ==> {
                    &&& (#[trigger] wanted[i]).backlog == config.network.tcp_backlog
                    &&& wanted[i].only_ipv6 <==> wanted[i].address is V6
                        && config.network.set_only_ipv6
                }
        }),
{
}

/// A socket is set up as its options say.
pub proof fn options_are_set_as_planned(options: ListenerOptions)
    ensures
        options@.address == options.address@,
        options@.only_ipv6 == options.only_ipv6,
        options@.backlog == options.backlog,
{
}

/// Sockets are planned in their order as long as there are privilege droppers for them.
/// It is an error exactly where one that is wanted is left without.
pub proof fn each_socket_takes_up_a_privilege_dropper(config: Config, priv_droppers: nat)
    ensures
        ({
            let (listeners, error) = planned_listeners(config, priv_droppers);
            let wanted = wanted_listeners(config);
            &&& listeners.is_prefix_of(wanted)
            &&& listeners.len() <= priv_droppers
            &&& listeners.len() < wanted.len() ==> listeners.len() == priv_droppers
            &&& error is Some <==> listeners.len() < wanted.len()
            &&& error matches Some(messages) ==> messages == seq!["no enough priv droppers"@]
        }),
{
    let (listeners, _) = planned_listeners(config, priv_droppers);
    let wanted = wanted_listeners(config);
    assert(listeners =~= wanted.subrange(0, listeners.len() as int));
}

} // verus!
