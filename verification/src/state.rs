//! The state of the application as the commands of its user change it.

use vstd::prelude::*;

verus! {

/// Why a command is refused.
#[derive(Debug, Clone, Copy, PartialEq, Eq, Structural)]
pub enum StateError {
    /// The serial port is connected already.
    AlreadyConnected,
    /// The serial port is not connected.
    NotConnected,
    /// There is no channel to the thread that owns the port.
    ChannelUnavailable,
    /// A generator session runs already.
    DriveAlreadyRunning,
    /// The system monitor is connected already.
    MonitorAlreadyConnected,
}

impl StateError {
    pub open spec fn message_text(self) -> Seq<char> {
        match self {
            StateError::AlreadyConnected => "Already connected"@,
            StateError::NotConnected => "Not connected"@,
            StateError::ChannelUnavailable => "Send channel not available"@,
            StateError::DriveAlreadyRunning => "Drive loop already running"@,
            StateError::MonitorAlreadyConnected => "System Monitor already connected"@,
        }
    }

    /// The message that tells a user of the error.
    pub fn message(&self) -> (text: String)
        ensures
            text@ == self.message_text(),
    {
        match self {
            StateError::AlreadyConnected => "Already connected".to_owned(),
            StateError::NotConnected => "Not connected".to_owned(),
            StateError::ChannelUnavailable => "Send channel not available".to_owned(),
            StateError::DriveAlreadyRunning => "Drive loop already running".to_owned(),
            StateError::MonitorAlreadyConnected => "System Monitor already connected".to_owned(),
        }
    }
}

/// What the application knows of its connections and sessions.
#[derive(Debug, Clone, Copy, PartialEq, Eq, Structural)]
pub struct AppState {
    /// Whether there is a channel to the thread that owns the port.
    pub channel_open: bool,
    pub is_connected: bool,
    pub csv_loop_running: bool,
    pub auto_drive_running: bool,
    pub receive_thread_running: bool,
    pub write_thread_running: bool,
    pub system_monitor_connected: bool,
    pub system_monitor_thread_running: bool,
}

/// The state in which nothing is connected and nothing runs.
pub open spec fn idle() -> AppState {
    AppState {
        channel_open: false,
        is_connected: false,
        csv_loop_running: false,
        auto_drive_running: false,
        receive_thread_running: false,
        write_thread_running: false,
        system_monitor_connected: false,
        system_monitor_thread_running: false,
    }
}

impl Default for AppState {
    fn default() -> (state: AppState)
        ensures
            state == idle(),
    {
        AppState {
            channel_open: false,
            is_connected: false,
            csv_loop_running: false,
            auto_drive_running: false,
            receive_thread_running: false,
            write_thread_running: false,
            system_monitor_connected: false,
            system_monitor_thread_running: false,
        }
    }
}

impl AppState {
    /// Connects the serial port: refused while it is connected; otherwise the
    /// channel is open and the port connected.
    pub fn connect(&mut self) -> (r: Result<(), StateError>)
        ensures
            old(self).is_connected ==> r == Err::<(), StateError>(StateError::AlreadyConnected)
                && *final(self) == *old(self),
            !old(self).is_connected ==> r is Ok && *final(self) == (AppState {
                channel_open: true,
                is_connected: true,
                ..*old(self)
            }),
    {
        if self.is_connected {
            return Err(StateError::AlreadyConnected);
        }
        self.channel_open = true;
        self.is_connected = true;
        Ok(())
    }

    /// The thread that owns the port has started.
    pub fn io_thread_started(&mut self)
        ensures
            *final(self) == (AppState {
                write_thread_running: true,
                receive_thread_running: true,
                ..*old(self)
            }),
    {
        self.write_thread_running = true;
        self.receive_thread_running = true;
    }

    /// The thread that owns the port has left its loop.
    pub fn io_thread_stopped(&mut self)
        ensures
            *final(self) == (AppState { receive_thread_running: false, ..*old(self) }),
    {
        self.receive_thread_running = false;
    }

    /// Disconnects the serial port: the thread is told to stop, the channel is
    /// closed, and the port is no longer connected.
    pub fn disconnect(&mut self)
        ensures
            *final(self) == (AppState {
                receive_thread_running: false,
                write_thread_running: false,
                channel_open: false,
                is_connected: false,
                ..*old(self)
            }),
    {
        self.receive_thread_running = false;
        self.write_thread_running = false;
        self.channel_open = false;
        self.is_connected = false;
    }

    /// Whether a frame may be sent: the port must be connected, and the
    /// channel open.
    pub fn check_send(&self) -> (r: Result<(), StateError>)
        ensures
            r == (if !self.is_connected {
                Err::<(), StateError>(StateError::NotConnected)
            } else if !self.channel_open {
                Err::<(), StateError>(StateError::ChannelUnavailable)
            } else {
                Ok::<(), StateError>(())
            }),
    {
        if !self.is_connected {
            Err(StateError::NotConnected)
        } else if !self.channel_open {
            Err(StateError::ChannelUnavailable)
        } else {
            Ok(())
        }
    }

    /// Starts a generator session: refused while one runs, and while the port
    /// is not connected.
    pub fn start_infinite_drive(&mut self) -> (r: Result<(), StateError>)
        ensures
            r == (if old(self).auto_drive_running {
                Err::<(), StateError>(StateError::DriveAlreadyRunning)
            } else if !old(self).is_connected {
                Err::<(), StateError>(StateError::NotConnected)
            } else {
                Ok::<(), StateError>(())
            }),
            r is Err ==> *final(self) == *old(self),
            r is Ok ==> *final(self) == (AppState { auto_drive_running: true, ..*old(self) }),
    {
        if self.auto_drive_running {
            return Err(StateError::DriveAlreadyRunning);
        }
        if !self.is_connected {
            return Err(StateError::NotConnected);
        }
        self.auto_drive_running = true;
        Ok(())
    }

    /// Clears the running flag of the generator session.
    pub fn stop_infinite_drive(&mut self)
        ensures
            *final(self) == (AppState { auto_drive_running: false, ..*old(self) }),
    {
        self.auto_drive_running = false;
    }

    /// Sets the running flag of the replay.
    pub fn start_csv_loop(&mut self)
        ensures
            *final(self) == (AppState { csv_loop_running: true, ..*old(self) }),
    {
        self.csv_loop_running = true;
    }

    /// Clears the running flag of the replay.
    pub fn stop_csv_loop(&mut self)
        ensures
            *final(self) == (AppState { csv_loop_running: false, ..*old(self) }),
    {
        self.csv_loop_running = false;
    }

    /// Connects the system monitor: refused while it is connected.
    pub fn connect_system_monitor(&mut self) -> (r: Result<(), StateError>)
        ensures
            old(self).system_monitor_connected ==> r == Err::<(), StateError>(
                StateError::MonitorAlreadyConnected,
            ) && *final(self) == *old(self),
            !old(self).system_monitor_connected ==> r is Ok && *final(self) == (AppState {
                system_monitor_connected: true,
                system_monitor_thread_running: true,
                ..*old(self)
            }),
    {
        if self.system_monitor_connected {
            return Err(StateError::MonitorAlreadyConnected);
        }
        self.system_monitor_connected = true;
        self.system_monitor_thread_running = true;
        Ok(())
    }

    /// Disconnects the system monitor.
    pub fn disconnect_system_monitor(&mut self)
        ensures
            *final(self) == (AppState {
                system_monitor_connected: false,
                system_monitor_thread_running: false,
                ..*old(self)
            }),
    {
        self.system_monitor_thread_running = false;
        self.system_monitor_connected = false;
    }

    /// Stops everything, as when the window closes.
    pub fn shutdown(&mut self)
        ensures
            *final(self) == idle(),
    {
        self.csv_loop_running = false;
        self.auto_drive_running = false;
        self.receive_thread_running = false;
        self.write_thread_running = false;
        self.system_monitor_thread_running = false;
        self.channel_open = false;
        self.is_connected = false;
        self.system_monitor_connected = false;
    }
}

} // verus!
