//! The AMS/TCP service with a router of its own.
use vstd::prelude::*;

use crate::ams::{AmsNetId, AMS_TCP_PORT};
use crate::connection_manager::{ConnectionConfig, ConnectionManager};
use crate::registry::TaskRegistry;
use crate::router::{AdsRouter, AdsRouterView};
use crate::transport::tcp::{default_config, idle_manager, TcpAmsTransport, TcpTransportView};

verus! {

/// The AMS/TCP transport behind a fresh router without metrics.
pub struct AmsTcpServer {
    pub inner: TcpAmsTransport,
}

impl View for AmsTcpServer {
    type V = TcpTransportView;

    open spec fn view(&self) -> TcpTransportView {
        self.inner@
    }
}

impl AmsTcpServer {
    pub fn new(host: String, net_id: AmsNetId, ads_port: u16) -> (r: Self)
        ensures
            r@ == (TcpTransportView {
                host: host@,
                net_id: net_id@,
                port: AMS_TCP_PORT,
                router: (AdsRouterView { ads_port, metrics: false, push: false, trace: false, tasks: Map::empty() }),
                connections: idle_manager(default_config()),
            }),
    {
        let router = AdsRouter::new(ads_port, false, TaskRegistry::new());
        AmsTcpServer { inner: TcpAmsTransport::new(host, net_id, router) }
    }

    pub fn with_connection_config(self, config: ConnectionConfig) -> (r: Self)
        ensures
            r@ == (TcpTransportView { connections: idle_manager(config), ..self@ }),
    {
        AmsTcpServer { inner: self.inner.with_connection_config(config) }
    }

    pub fn connection_manager(&self) -> (r: &ConnectionManager)
        ensures
            r@ == self@.connections,
    {
        self.inner.connection_manager()
    }

    pub fn task_registry(&self) -> (r: &TaskRegistry)
        ensures
            r@ == self@.router.tasks,
    {
        self.inner.task_registry()
    }
}

} // verus!
