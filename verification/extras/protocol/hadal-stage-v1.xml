<?xml version="1.0" encoding="UTF-8"?>
<protocol name="hadal_stage_v1">
  <description summary="thumbnails of minimised windows">
    A client that lists windows, such as a dock, can watch one of them and is
    sent a picture of it when it is minimised.
  </description>

  <interface name="hadal_stage_manager_v1" version="1">
    <description summary="makes thumbnail objects"/>

    <request name="destroy" type="destructor">
      <description summary="done with the manager; thumbnails stay"/>
    </request>

    <request name="watch">
      <description summary="watch the picture of a window">
        A picture that there is already is sent at once.
      </description>
      <arg name="thumbnail" type="new_id" interface="hadal_stage_thumbnail_v1"/>
      <arg name="toplevel" type="object" interface="zwlr_foreign_toplevel_handle_v1"/>
    </request>
  </interface>

  <interface name="hadal_stage_thumbnail_v1" version="1">
    <description summary="the picture of one window">
      Outlives its window, of which it then hears no more.
    </description>

    <enum name="format">
      <entry name="abgr8888" value="0" summary="R, G, B, A in memory"/>
    </enum>

    <request name="destroy" type="destructor">
      <description summary="stop watching"/>
    </request>

    <event name="image">
      <description summary="there is a new picture">
        The file is sealed: nobody can alter or shorten it.
      </description>
      <arg name="fd" type="fd"/>
      <arg name="width" type="uint"/>
      <arg name="height" type="uint"/>
      <arg name="stride" type="uint"/>
      <arg name="format" type="uint" enum="format"/>
    </event>

    <event name="cleared">
      <description summary="there is no picture any more"/>
    </event>
  </interface>
</protocol>
